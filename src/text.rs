//! Text primitives used on kernel attribute contents: decimal parsing and
//! rendering, splitting into fields, trimming and substring search.
use vstd::prelude::*;
use vstd::string::*;
use vstd::std_specs::iter::IteratorSpec;

verus! {

pub open spec fn is_digit(c: char) -> bool {
    '0' <= c && c <= '9'
}

pub open spec fn digit_value(c: char) -> int {
    (c as u32) as int - ('0' as u32) as int
}

/// A non-empty run of ASCII decimal digits.
pub open spec fn all_digits(s: Seq<char>) -> bool {
    s.len() > 0 && forall|i: int| 0 <= i < s.len() ==> is_digit(#[trigger] s[i])
}

/// The value of a run of decimal digits, most significant first.
pub open spec fn digits_value(s: Seq<char>) -> int
    decreases s.len(),
{
    if s.len() == 0 {
        0
    } else {
        digits_value(s.drop_last()) * 10 + digit_value(s.last())
    }
}

/// The integer a decimal literal denotes: an optional sign, then digits.
pub open spec fn signed_value(s: Seq<char>) -> Option<int> {
    if s.len() > 0 && s[0] == '-' && all_digits(s.drop_first()) {
        Some(-digits_value(s.drop_first()))
    } else if s.len() > 0 && s[0] == '+' && all_digits(s.drop_first()) {
        Some(digits_value(s.drop_first()))
    } else if all_digits(s) {
        Some(digits_value(s))
    } else {
        None
    }
}

/// The integer an unsigned decimal literal denotes: an optional `+`, then digits.
pub open spec fn unsigned_value(s: Seq<char>) -> Option<int> {
    if s.len() > 0 && s[0] == '+' && all_digits(s.drop_first()) {
        Some(digits_value(s.drop_first()))
    } else if all_digits(s) {
        Some(digits_value(s))
    } else {
        None
    }
}

pub open spec fn parsed_i64(s: Seq<char>) -> Option<i64> {
    match signed_value(s) {
        Some(v) => if i64::MIN <= v <= i64::MAX { Some(v as i64) } else { None },
        None => None,
    }
}

pub open spec fn parsed_i32(s: Seq<char>) -> Option<i32> {
    match signed_value(s) {
        Some(v) => if i32::MIN <= v <= i32::MAX { Some(v as i32) } else { None },
        None => None,
    }
}

pub open spec fn parsed_u64(s: Seq<char>) -> Option<u64> {
    match unsigned_value(s) {
        Some(v) => if v <= u64::MAX { Some(v as u64) } else { None },
        None => None,
    }
}

pub open spec fn parsed_u32(s: Seq<char>) -> Option<u32> {
    match unsigned_value(s) {
        Some(v) => if v <= u32::MAX { Some(v as u32) } else { None },
        None => None,
    }
}

proof fn lemma_digits_nonneg(s: Seq<char>)
    requires
        forall|i: int| 0 <= i < s.len() ==> is_digit(#[trigger] s[i]),
    ensures
        digits_value(s) >= 0,
    decreases s.len(),
{
    if s.len() > 0 {
        lemma_digits_nonneg(s.drop_last());
    }
}

proof fn lemma_unsigned_nonneg(s: Seq<char>)
    ensures
        unsigned_value(s) is Some ==> unsigned_value(s)->0 >= 0,
{
    if s.len() > 0 && all_digits(s.drop_first()) {
        lemma_digits_nonneg(s.drop_first());
    }
    if all_digits(s) {
        lemma_digits_nonneg(s);
    }
}

/// Appending digits never lowers the value of a digit run.
proof fn lemma_digits_grow(s: Seq<char>, i: int, j: int)
    requires
        0 <= i <= j <= s.len(),
        forall|k: int| 0 <= k < s.len() ==> is_digit(#[trigger] s[k]),
    ensures
        digits_value(s.subrange(0, i)) <= digits_value(s.subrange(0, j)),
    decreases j - i,
{
    if i < j {
        lemma_digits_grow(s, i, j - 1);
        assert(s.subrange(0, j).drop_last() =~= s.subrange(0, j - 1));
        lemma_digits_nonneg(s.subrange(0, j - 1));
    }
}

/// Reads the digits of `s` from position `start` on, when they all are
/// digits, there is at least one, and their value is at most `bound`.
fn digits_upto(s: &str, start: usize, bound: u128) -> (r: Option<u128>)
    requires
        start <= s@.len(),
        bound <= u64::MAX,
    ensures
        ({
            let t = s@.subrange(start as int, s@.len() as int);
            r == if all_digits(t) && digits_value(t) <= bound {
                Some(digits_value(t) as u128)
            } else {
                None
            }
        }),
        r is Some ==> r->0 <= bound && r->0 as int == digits_value(
            s@.subrange(start as int, s@.len() as int),
        ),
{
    let n = s.unicode_len();
    let ghost t = s@.subrange(start as int, s@.len() as int);
    if start >= n {
        return None;
    }
    let mut acc: u128 = 0;
    let mut i: usize = start;
    while i < n
        invariant
            start <= i <= n,
            n == s@.len(),
            t == s@.subrange(start as int, n as int),
            bound <= u64::MAX,
            acc <= bound,
            forall|k: int| start <= k < i ==> is_digit(#[trigger] s@[k]),
            acc as int == digits_value(t.subrange(0, i - start)),
        decreases n - i,
    {
        let c = s.get_char(i);
        if !('0' <= c && c <= '9') {
            assert(!is_digit(t[i - start]));
            return None;
        }
        let d = (c as u32 - '0' as u32) as u128;
        assert(t.subrange(0, i + 1 - start).drop_last() =~= t.subrange(0, i - start));
        let next = acc * 10 + d;
        if next > bound {
            proof {
                // Digits beyond this point only raise the value further.
                if all_digits(t) {
                    lemma_digits_grow(t, i + 1 - start, t.len() as int);
                    assert(t.subrange(0, t.len() as int) =~= t);
                }
            }
            return None;
        }
        acc = next;
        i = i + 1;
    }
    assert(t.subrange(0, n - start) =~= t);
    proof {
        lemma_digits_nonneg(t);
    }
    Some(acc)
}

/// Parses a decimal `i64` the way `str::parse::<i64>` does: an optional
/// sign, then at least one ASCII digit, nothing else, and in range.
pub fn parse_i64(s: &str) -> (r: Option<i64>)
    ensures
        r == parsed_i64(s@),
{
    let n = s.unicode_len();
    if n == 0 {
        return None;
    }
    let first = s.get_char(0);
    if first == '-' {
        let m = digits_upto(s, 1, 0x8000_0000_0000_0000);
        match m {
            Some(v) => {
                assert(s@.subrange(1, s@.len() as int) =~= s@.drop_first());
                Some((0 - (v as i128)) as i64)
            },
            None => {
                assert(s@.subrange(1, s@.len() as int) =~= s@.drop_first());
                proof {
                    if all_digits(s@) {
                        assert(is_digit(s@[0]));
                    }
                }
                None
            },
        }
    } else if first == '+' {
        let m = digits_upto(s, 1, 0x7fff_ffff_ffff_ffff);
        assert(s@.subrange(1, s@.len() as int) =~= s@.drop_first());
        proof {
            if all_digits(s@) {
                assert(is_digit(s@[0]));
            }
        }
        match m {
            Some(v) => Some(v as i64),
            None => None,
        }
    } else {
        let m = digits_upto(s, 0, 0x7fff_ffff_ffff_ffff);
        assert(s@.subrange(0, s@.len() as int) =~= s@);
        proof {
            if all_digits(s@) {
                lemma_digits_nonneg(s@);
            }
        }
        match m {
            Some(v) => Some(v as i64),
            None => None,
        }
    }
}

/// Parses a decimal `i32` the way `str::parse::<i32>` does.
pub fn parse_i32(s: &str) -> (r: Option<i32>)
    ensures
        r == parsed_i32(s@),
{
    match parse_i64(s) {
        Some(v) => if i32::MIN as i64 <= v && v <= i32::MAX as i64 {
            Some(v as i32)
        } else {
            None
        },
        None => None,
    }
}

/// Parses a decimal `u64` the way `str::parse::<u64>` does: an optional
/// `+`, then at least one ASCII digit, nothing else, and in range.
pub fn parse_u64(s: &str) -> (r: Option<u64>)
    ensures
        r == parsed_u64(s@),
{
    let n = s.unicode_len();
    if n == 0 {
        return None;
    }
    let start: usize = if s.get_char(0) == '+' { 1 } else { 0 };
    let m = digits_upto(s, start, 0xffff_ffff_ffff_ffff);
    assert(s@.subrange(1, s@.len() as int) =~= s@.drop_first());
    assert(s@.subrange(0, s@.len() as int) =~= s@);
    proof {
        if start == 1 && all_digits(s@) {
            assert(is_digit(s@[0]));
        }
    }
    match m {
        Some(v) => Some(v as u64),
        None => None,
    }
}

/// Parses a decimal `u32` the way `str::parse::<u32>` does.
pub fn parse_u32(s: &str) -> (r: Option<u32>)
    ensures
        r == parsed_u32(s@),
{
    proof {
        lemma_unsigned_nonneg(s@);
    }
    match parse_u64(s) {
        Some(v) => if v <= u32::MAX as u64 { Some(v as u32) } else { None },
        None => None,
    }
}

/// The characters of `s`, in order.
pub fn chars_of(s: &str) -> (r: Vec<char>)
    ensures
        r@ == s@,
{
    broadcast use vstd::string::group_string_axioms;
    let mut it = s.chars();
    let mut out: Vec<char> = Vec::new();
    let ghost total = s@;
    loop
        invariant
            IteratorSpec::obeys_prophetic_iter_laws(&it),
            total == s@,
            out@.len() <= total.len(),
            out@ == total.subrange(0, out@.len() as int),
            IteratorSpec::remaining(&it) == total.subrange(out@.len() as int, total.len() as int),
        decreases total.len() - out@.len(),
    {
        match it.next() {
            Some(c) => {
                out.push(c);
            },
            None => {
                assert(out@ =~= total);
                return out;
            },
        }
    }
}

/// Unicode `White_Space`, the set that `char::is_whitespace` tests.
pub open spec fn is_space(c: char) -> bool {
    c == '\t' || c == '\n' || c == '\u{0B}' || c == '\u{0C}' || c == '\r' || c == ' '
        || c == '\u{85}' || c == '\u{A0}' || c == '\u{1680}' || ('\u{2000}' <= c
        && c <= '\u{200A}') || c == '\u{2028}' || c == '\u{2029}' || c == '\u{202F}'
        || c == '\u{205F}' || c == '\u{3000}'
}

pub fn is_space_char(c: char) -> (r: bool)
    ensures
        r == is_space(c),
{
    c == '\t' || c == '\n' || c == '\u{0B}' || c == '\u{0C}' || c == '\r' || c == ' '
        || c == '\u{85}' || c == '\u{A0}' || c == '\u{1680}' || ('\u{2000}' <= c
        && c <= '\u{200A}') || c == '\u{2028}' || c == '\u{2029}' || c == '\u{202F}'
        || c == '\u{205F}' || c == '\u{3000}'
}

/// Where a text is cut into pieces.
#[derive(Clone, Copy, PartialEq, Eq, Debug)]
pub enum Separator {
    /// Any whitespace character.
    Whitespace,
    /// The line feed.
    Newline,
    /// A space or a dash.
    SpaceOrDash,
}

pub open spec fn separates(sep: Separator, c: char) -> bool {
    match sep {
        Separator::Whitespace => is_space(c),
        Separator::Newline => c == '\n',
        Separator::SpaceOrDash => c == ' ' || c == '-',
    }
}

fn is_separator(sep: Separator, c: char) -> (r: bool)
    ensures
        r == separates(sep, c),
{
    match sep {
        Separator::Whitespace => is_space_char(c),
        Separator::Newline => c == '\n',
        Separator::SpaceOrDash => c == ' ' || c == '-',
    }
}

/// The pieces between separators, empty ones included (as `str::split`).
pub open spec fn pieces(s: Seq<char>, sep: Separator) -> Seq<Seq<char>>
    decreases s.len(),
{
    if s.len() == 0 {
        seq![Seq::empty()]
    } else {
        let p = pieces(s.drop_last(), sep);
        if separates(sep, s.last()) {
            p.push(Seq::empty())
        } else {
            p.update(p.len() - 1, p.last().push(s.last()))
        }
    }
}

pub open spec fn non_empty(ps: Seq<Seq<char>>) -> Seq<Seq<char>>
    decreases ps.len(),
{
    if ps.len() == 0 {
        ps
    } else if ps.last().len() == 0 {
        non_empty(ps.drop_last())
    } else {
        non_empty(ps.drop_last()).push(ps.last())
    }
}

/// The non-empty pieces between separators (as `str::split_whitespace`
/// for whitespace).
pub open spec fn fields(s: Seq<char>, sep: Separator) -> Seq<Seq<char>> {
    non_empty(pieces(s, sep))
}

pub open spec fn views(v: Seq<String>) -> Seq<Seq<char>> {
    v.map_values(|x: String| x@)
}

proof fn lemma_pieces_len(s: Seq<char>, sep: Separator)
    ensures
        pieces(s, sep).len() >= 1,
    decreases s.len(),
{
    if s.len() > 0 {
        lemma_pieces_len(s.drop_last(), sep);
    }
}

/// Cuts `s` at every separator, keeping empty pieces.
pub fn split_pieces(s: &str, sep: Separator) -> (r: Vec<String>)
    ensures
        views(r@) == pieces(s@, sep),
{
    let cs = chars_of(s);
    let n = cs.len();
    let mut out: Vec<String> = Vec::new();
    let mut start: usize = 0;
    let mut i: usize = 0;
    while i < n
        invariant
            cs@ == s@,
            n == cs@.len(),
            start <= i <= n,
            out@.len() + 1 == pieces(s@.subrange(0, i as int), sep).len(),
            forall|k: int|
                0 <= k < out@.len() ==> #[trigger] out@[k]@ == pieces(
                    s@.subrange(0, i as int),
                    sep,
                )[k],
            pieces(s@.subrange(0, i as int), sep).last() == s@.subrange(start as int, i as int),
        decreases n - i,
    {
        let ghost pre = s@.subrange(0, i as int);
        let ghost next = s@.subrange(0, i + 1);
        assert(next.drop_last() =~= pre);
        assert(next.last() == cs@[i as int]);
        proof {
            lemma_pieces_len(pre, sep);
        }
        if is_separator(sep, cs[i]) {
            let piece = String::from_str(s.substring_char(start, i));
            out.push(piece);
            start = i + 1;
            assert(s@.subrange(start as int, i + 1) =~= Seq::<char>::empty());
        } else {
            assert(s@.subrange(start as int, i + 1) =~= s@.subrange(start as int, i as int).push(
                cs@[i as int],
            ));
        }
        i = i + 1;
    }
    let last = String::from_str(s.substring_char(start, n));
    out.push(last);
    assert(s@.subrange(0, n as int) =~= s@);
    assert(views(out@) =~= pieces(s@, sep));
    out
}

/// Cuts `s` at every separator, dropping empty pieces.
pub fn split_fields(s: &str, sep: Separator) -> (r: Vec<String>)
    ensures
        views(r@) == fields(s@, sep),
{
    let ps = split_pieces(s, sep);
    let mut out: Vec<String> = Vec::new();
    let mut i: usize = 0;
    while i < ps.len()
        invariant
            i <= ps@.len(),
            views(ps@) == pieces(s@, sep),
            views(out@) == non_empty(views(ps@).subrange(0, i as int)),
        decreases ps@.len() - i,
    {
        let ghost pre = views(ps@).subrange(0, i as int);
        assert(views(ps@).subrange(0, i + 1).drop_last() =~= pre);
        if ps[i].unicode_len() > 0 {
            out.push(ps[i].clone());
            assert(views(out@) =~= non_empty(views(ps@).subrange(0, i + 1)));
        }
        i = i + 1;
    }
    assert(views(ps@).subrange(0, ps@.len() as int) =~= views(ps@));
    out
}

/// What `char::is_numeric` answers of a character.
pub uninterp spec fn numeric_char(c: char) -> bool;

/// Relies on `char::is_numeric`: a function of the character alone, true of
/// the ASCII digits.
#[verifier::external_body]
fn char_is_numeric(c: char) -> (r: bool)
    ensures
        r == numeric_char(c),
        is_digit(c) ==> r,
{
    c.is_numeric()
}

/// What `str::to_lowercase` returns for a text.
pub uninterp spec fn lower_of(s: Seq<char>) -> Seq<char>;

/// Relies on `str::to_lowercase`: the result depends on the characters alone.
#[verifier::external_body]
pub(crate) fn to_lower(s: &str) -> (r: String)
    ensures
        r@ == lower_of(s@),
{
    s.to_lowercase()
}

/// Which characters a trim removes from both ends.
#[derive(Clone, Copy, PartialEq, Eq, Debug)]
pub enum Trim {
    Whitespace,
    NonNumeric,
}

pub open spec fn trims(k: Trim, c: char) -> bool {
    match k {
        Trim::Whitespace => is_space(c),
        Trim::NonNumeric => !numeric_char(c),
    }
}

pub open spec fn strip_front(s: Seq<char>, k: Trim) -> Seq<char>
    decreases s.len(),
{
    if s.len() > 0 && trims(k, s[0]) {
        strip_front(s.drop_first(), k)
    } else {
        s
    }
}

pub open spec fn strip_back(s: Seq<char>, k: Trim) -> Seq<char>
    decreases s.len(),
{
    if s.len() > 0 && trims(k, s.last()) {
        strip_back(s.drop_last(), k)
    } else {
        s
    }
}

/// `s` without the characters of kind `k` at its two ends (as `str::trim`
/// and `str::trim_matches`).
pub open spec fn trimmed(s: Seq<char>, k: Trim) -> Seq<char> {
    strip_back(strip_front(s, k), k)
}

fn trims_char(k: Trim, c: char) -> (r: bool)
    ensures
        r == trims(k, c),
{
    match k {
        Trim::Whitespace => is_space_char(c),
        Trim::NonNumeric => !char_is_numeric(c),
    }
}

pub fn trim(s: &str, k: Trim) -> (r: String)
    ensures
        r@ == trimmed(s@, k),
{
    let cs = chars_of(s);
    let n = cs.len();
    let mut a: usize = 0;
    assert(s@.subrange(0, n as int) =~= s@);
    while a < n && trims_char(k, cs[a])
        invariant
            cs@ == s@,
            n == cs@.len(),
            a <= n,
            strip_front(s@, k) == strip_front(s@.subrange(a as int, n as int), k),
        decreases n - a,
    {
        assert(s@.subrange(a as int, n as int).drop_first() =~= s@.subrange(a + 1, n as int));
        a = a + 1;
    }
    assert(s@.subrange(0, n as int) =~= s@);
    let mut b: usize = n;
    while b > a && trims_char(k, cs[b - 1])
        invariant
            cs@ == s@,
            n == cs@.len(),
            a <= b <= n,
            strip_front(s@, k) == strip_front(s@.subrange(a as int, n as int), k),
            strip_back(s@.subrange(a as int, n as int), k) == strip_back(
                s@.subrange(a as int, b as int),
                k,
            ),
        decreases b - a,
    {
        assert(s@.subrange(a as int, b as int).drop_last() =~= s@.subrange(a as int, b - 1));
        b = b - 1;
    }
    assert(strip_front(s@.subrange(a as int, n as int), k) == s@.subrange(a as int, n as int));
    String::from_str(s.substring_char(a, b))
}

/// `n` occurs in `h` at position `i`.
pub open spec fn occurs_at(h: Seq<char>, n: Seq<char>, i: int) -> bool {
    0 <= i && i + n.len() <= h.len() && h.subrange(i, i + n.len()) == n
}

pub open spec fn has_substring(h: Seq<char>, n: Seq<char>) -> bool {
    exists|i: int| occurs_at(h, n, i)
}

pub open spec fn has_prefix(h: Seq<char>, p: Seq<char>) -> bool {
    p.len() <= h.len() && h.subrange(0, p.len() as int) == p
}

fn matches_at(h: &Vec<char>, n: &Vec<char>, i: usize) -> (r: bool)
    requires
        i + n@.len() <= h@.len(),
    ensures
        r == (h@.subrange(i as int, i + n@.len()) == n@),
{
    let hl = h.len();
    let mut j: usize = 0;
    while j < n.len()
        invariant
            hl == h@.len(),
            i + n@.len() <= h@.len(),
            j <= n@.len(),
            forall|k: int| 0 <= k < j ==> h@[i + k] == n@[k],
        decreases n@.len() - j,
    {
        if h[i + j] != n[j] {
            assert(h@.subrange(i as int, i + n@.len())[j as int] != n@[j as int]);
            return false;
        }
        j = j + 1;
    }
    assert(h@.subrange(i as int, i + n@.len()) =~= n@);
    true
}

/// Whether `n` occurs in `h` (as `str::contains`).
pub fn contains(h: &str, n: &str) -> (r: bool)
    ensures
        r == has_substring(h@, n@),
{
    let hs = chars_of(h);
    let ns = chars_of(n);
    if ns.len() > hs.len() {
        return false;
    }
    let last = hs.len() - ns.len();
    let mut i: usize = 0;
    loop
        invariant
            hs@ == h@,
            ns@ == n@,
            i <= last,
            last + ns@.len() == hs@.len(),
            forall|k: int| 0 <= k < i ==> !occurs_at(h@, n@, k),
        decreases last - i,
    {
        if matches_at(&hs, &ns, i) {
            assert(occurs_at(h@, n@, i as int));
            return true;
        }
        if i == last {
            assert forall|k: int| !occurs_at(h@, n@, k) by {
                if 0 <= k <= last {
                    assert(k < i || k == i);
                }
            }
            return false;
        }
        i = i + 1;
    }
}

/// Whether `h` begins with `p` (as `str::starts_with`).
pub fn starts_with(h: &str, p: &str) -> (r: bool)
    ensures
        r == has_prefix(h@, p@),
{
    let hs = chars_of(h);
    let ps = chars_of(p);
    if ps.len() > hs.len() {
        return false;
    }
    matches_at(&hs, &ps, 0)
}

/// Whether two texts are the same.
pub fn same_text(a: &str, b: &str) -> (r: bool)
    ensures
        r == (a@ == b@),
{
    let x = chars_of(a);
    let y = chars_of(b);
    if x.len() != y.len() {
        return false;
    }
    let r = matches_at(&x, &y, 0);
    assert(x@.subrange(0, y@.len() as int) =~= x@);
    r
}

/// The first line of `ls` that begins with `pat`.
pub open spec fn first_line_starting(ls: Seq<Seq<char>>, pat: Seq<char>) -> Option<Seq<char>>
    decreases ls.len(),
{
    if ls.len() == 0 {
        None
    } else if has_prefix(ls[0], pat) {
        Some(ls[0])
    } else {
        first_line_starting(ls.drop_first(), pat)
    }
}

/// Finds the first line of `ls` that begins with `pat`.
pub fn find_line_starting(ls: &Vec<String>, pat: &str) -> (r: Option<usize>)
    ensures
        match r {
            Some(i) => i < ls@.len() && first_line_starting(views(ls@), pat@) == Some(
                ls@[i as int]@,
            ),
            None => first_line_starting(views(ls@), pat@) is None,
        },
{
    let mut i: usize = 0;
    assert(views(ls@).subrange(0, ls@.len() as int) =~= views(ls@));
    while i < ls.len()
        invariant
            i <= ls@.len(),
            first_line_starting(views(ls@), pat@) == first_line_starting(
                views(ls@).subrange(i as int, ls@.len() as int),
                pat@,
            ),
        decreases ls@.len() - i,
    {
        let ghost rest = views(ls@).subrange(i as int, ls@.len() as int);
        assert(rest.drop_first() =~= views(ls@).subrange(i + 1, ls@.len() as int));
        if starts_with(ls[i].as_str(), pat) {
            return Some(i);
        }
        i = i + 1;
    }
    assert(views(ls@).subrange(i as int, ls@.len() as int) =~= Seq::<Seq<char>>::empty());
    None
}

pub open spec fn digit_char(d: nat) -> char {
    seq!['0', '1', '2', '3', '4', '5', '6', '7', '8', '9'][d as int]
}

/// The decimal rendering of a natural number, without leading zeros.
pub open spec fn decimal(n: nat) -> Seq<char>
    decreases n,
{
    if n < 10 {
        seq![digit_char(n)]
    } else {
        decimal(n / 10) + seq![digit_char(n % 10)]
    }
}

/// The decimal rendering of an integer, `-` first when it is negative.
pub open spec fn signed_decimal(v: int) -> Seq<char> {
    if v < 0 {
        seq!['-'] + decimal((-v) as nat)
    } else {
        decimal(v as nat)
    }
}

fn digit_text(d: u64) -> (r: &'static str)
    requires
        d < 10,
    ensures
        r@ == seq![digit_char(d as nat)],
{
    let all = "0123456789";
    proof {
        reveal_strlit("0123456789");
    }
    let r = all.substring_char(d as usize, d as usize + 1);
    assert(r@ =~= seq![digit_char(d as nat)]);
    r
}

/// Renders a natural number in decimal (as `u64::to_string`).
pub fn decimal_string(n: u64) -> (r: String)
    ensures
        r@ == decimal(n as nat),
    decreases n,
{
    if n < 10 {
        String::from_str(digit_text(n))
    } else {
        let head = decimal_string(n / 10);
        head.concat(digit_text(n % 10))
    }
}

/// Renders an integer in decimal (as `i64::to_string`).
pub fn signed_string(v: i64) -> (r: String)
    ensures
        r@ == signed_decimal(v as int),
{
    if v < 0 {
        let magnitude: u64 = (0 - (v as i128)) as u64;
        let minus = "-";
        proof {
            reveal_strlit("-");
        }
        String::from_str(minus).concat(decimal_string(magnitude).as_str())
    } else {
        decimal_string(v as u64)
    }
}

} // verus!

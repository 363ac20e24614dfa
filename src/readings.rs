//! Readings of candidate attribute lists, and the first-success choice
//! among them.
use vstd::prelude::*;
use crate::source::AttributeSource;
use crate::text::{parse_i64, parsed_i64};

verus! {

pub open spec fn opt_text(r: Option<String>) -> Option<Seq<char>> {
    match r {
        Some(s) => Some(s@),
        None => None,
    }
}

/// The texts of a list of readings, `None` where a reading was absent.
pub open spec fn texts(rs: Seq<Option<String>>) -> Seq<Option<Seq<char>>> {
    rs.map_values(|r: Option<String>| opt_text(r))
}

/// The trimmed text of one attribute, or `None` when it is absent.
pub fn read_sysfs<S: AttributeSource>(src: &S, path: &str) -> (r: Option<String>) {
    src.read(path)
}

/// The `(key, value)` pairs of the keys that have a value, in key order;
/// `answers[i]` is the value found for `keys[i]`.
pub open spec fn present_pairs(keys: Seq<Seq<char>>, answers: Seq<Option<Seq<char>>>) -> Seq<
    (Seq<char>, Seq<char>),
>
    decreases keys.len(),
{
    if keys.len() == 0 || answers.len() != keys.len() {
        Seq::empty()
    } else {
        let rest = present_pairs(keys.drop_last(), answers.drop_last());
        match answers.last() {
            Some(v) => rest.push((keys.last(), v)),
            None => rest,
        }
    }
}

pub open spec fn pair_views(v: Seq<(String, String)>) -> Seq<(Seq<char>, Seq<char>)> {
    v.map_values(|p: (String, String)| (p.0@, p.1@))
}

pub open spec fn key_views(keys: Seq<&str>) -> Seq<Seq<char>> {
    keys.map_values(|k: &str| k@)
}

/// The properties among `keys` that have a value, as `(key, value)` pairs
/// in the order of `keys`.
pub fn get_system_properties<S: AttributeSource>(src: &S, keys: &[&str]) -> (r: Vec<(String, String)>)
    ensures
        exists|answers: Seq<Option<Seq<char>>>|
            answers.len() == keys@.len() && pair_views(r@) == present_pairs(key_views(keys@), answers),
{
    let mut out: Vec<(String, String)> = Vec::new();
    let ghost mut answers: Seq<Option<Seq<char>>> = Seq::empty();
    let mut i: usize = 0;
    while i < keys.len()
        invariant
            i <= keys@.len(),
            answers.len() == i,
            pair_views(out@) == present_pairs(key_views(keys@).subrange(0, i as int), answers),
        decreases keys@.len() - i,
    {
        let v = src.system_property(keys[i]);
        let ghost before = out@;
        let ghost prev = answers;
        proof {
            answers = answers.push(opt_text(v));
        }
        let ghost ks = key_views(keys@).subrange(0, i + 1);
        assert(ks.drop_last() =~= key_views(keys@).subrange(0, i as int));
        assert(answers.drop_last() =~= prev);
        assert(ks.last() == keys@[i as int]@);
        match v {
            Some(val) => {
                let key = String::from_str(keys[i]);
                out.push((key, val));
                assert(pair_views(out@) =~= pair_views(before).push((keys@[i as int]@, answers.last()->0)));
            },
            None => {},
        }
        i = i + 1;
    }
    assert(key_views(keys@).subrange(0, keys@.len() as int) =~= key_views(keys@));
    out
}

/// Reads every path of `paths`, in order.
pub fn read_all<S: AttributeSource>(src: &S, paths: &Vec<&str>) -> (r: Vec<Option<String>>)
    ensures
        r@.len() == paths@.len(),
{
    let mut out: Vec<Option<String>> = Vec::new();
    let mut i: usize = 0;
    while i < paths.len()
        invariant
            i <= paths@.len(),
            out@.len() == i,
        decreases paths@.len() - i,
    {
        out.push(src.read(paths[i]));
        i = i + 1;
    }
    out
}

/// What a text yields as an integer reading: its decimal value when it
/// parses, lies in `[lo, hi]`, and is not zero where zero is refused.
pub open spec fn int_reading(t: Seq<char>, lo: i64, hi: i64, nonzero: bool) -> Option<i64> {
    match parsed_i64(t) {
        Some(v) => if lo <= v <= hi && (!nonzero || v != 0) {
            Some(v)
        } else {
            None
        },
        None => None,
    }
}

/// The first integer reading of a candidate list that is accepted.
pub open spec fn first_int(rs: Seq<Option<Seq<char>>>, lo: i64, hi: i64, nonzero: bool) -> Option<
    i64,
>
    decreases rs.len(),
{
    if rs.len() == 0 {
        None
    } else {
        match rs[0] {
            Some(t) => match int_reading(t, lo, hi, nonzero) {
                Some(v) => Some(v),
                None => first_int(rs.drop_first(), lo, hi, nonzero),
            },
            None => first_int(rs.drop_first(), lo, hi, nonzero),
        }
    }
}

/// The first candidate whose text parses as an integer in `[lo, hi]` (and
/// is not zero, when `nonzero`).
pub fn first_int_reading(rs: &Vec<Option<String>>, lo: i64, hi: i64, nonzero: bool) -> (r: Option<
    i64,
>)
    ensures
        r == first_int(texts(rs@), lo, hi, nonzero),
        r matches Some(v) ==> lo <= v <= hi,
{
    let mut i: usize = 0;
    assert(texts(rs@).subrange(0, rs@.len() as int) =~= texts(rs@));
    while i < rs.len()
        invariant
            i <= rs@.len(),
            first_int(texts(rs@), lo, hi, nonzero) == first_int(
                texts(rs@).subrange(i as int, rs@.len() as int),
                lo,
                hi,
                nonzero,
            ),
        decreases rs@.len() - i,
    {
        let ghost rest = texts(rs@).subrange(i as int, rs@.len() as int);
        assert(rest.drop_first() =~= texts(rs@).subrange(i + 1, rs@.len() as int));
        assert(rest[0] == opt_text(rs@[i as int]));
        match &rs[i] {
            Some(t) => {
                match parse_i64(t.as_str()) {
                    Some(v) => {
                        if lo <= v && v <= hi && (!nonzero || v != 0) {
                            return Some(v);
                        }
                    },
                    None => {},
                }
            },
            None => {},
        }
        i = i + 1;
    }
    assert(texts(rs@).subrange(i as int, rs@.len() as int) =~= Seq::<Option<Seq<char>>>::empty());
    None
}

/// Every candidate absent.
pub open spec fn all_absent(rs: Seq<Option<Seq<char>>>) -> bool {
    forall|i: int| 0 <= i < rs.len() ==> rs[i] is None
}

/// A list with no reading yields no integer, so its metric takes its
/// default.
pub proof fn lemma_absent_yields_nothing(rs: Seq<Option<Seq<char>>>, lo: i64, hi: i64, nonzero: bool)
    requires
        all_absent(rs),
    ensures
        first_int(rs, lo, hi, nonzero) is None,
        or_zero(first_int(rs, lo, hi, nonzero)) == 0,
    decreases rs.len(),
{
    if rs.len() > 0 {
        lemma_absent_yields_nothing(rs.drop_first(), lo, hi, nonzero);
    }
}

/// An accepted integer reading, or 0.
pub open spec fn or_zero(v: Option<i64>) -> int {
    match v {
        Some(x) => x as int,
        None => 0,
    }
}

/// `v / d` rounded toward zero, as Rust's integer division does.
pub open spec fn div_trunc(v: int, d: int) -> int {
    if v >= 0 { v / d } else { -((-v) / d) }
}

/// `v / 1000` rounded toward zero, then narrowed to `i32` as `as` does.
pub open spec fn thousandths_i32(v: i64) -> i32 {
    div_trunc(v as int, 1000) as i32
}

/// Divides by a thousand (micro to milli, or kilo to mega) and narrows.
pub fn per_thousand(v: i64) -> (r: i32)
    ensures
        r == thousandths_i32(v),
{
    let q: i64 = if v >= 0 { v / 1000 } else { 0 - ((0 - (v as i128)) / 1000) as i64 };
    #[verifier::truncate]
    (q as i32)
}

} // verus!

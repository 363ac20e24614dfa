//! Memory totals from `/proc/meminfo`, and the compressed swap size.
use vstd::prelude::*;
use crate::readings::{first_int, first_int_reading, or_zero, read_all, texts};
use crate::source::AttributeSource;
use crate::text::{fields, non_empty, pieces, parse_i64, parsed_i64, same_text, split_fields, views, Separator};

verus! {

/// Memory figures in kilobytes; 0 where the report does not give one.
#[derive(Debug, Default)]
pub struct MemInfo {
    pub total_kb: i64,
    pub available_kb: i64,
    pub free_kb: i64,
    pub cached_kb: i64,
    pub buffers_kb: i64,
    pub swap_total_kb: i64,
    pub swap_free_kb: i64,
}

/// The value a report line gives for `key`: the line's first word is the
/// key and its second a decimal number.
pub open spec fn entry_of(l: Seq<char>, key: Seq<char>) -> Option<i64> {
    let ws = fields(l, Separator::Whitespace);
    if ws.len() >= 2 && ws[0] == key {
        parsed_i64(ws[1])
    } else {
        None
    }
}

/// The value of the last line of `ls` that gives one for `key`, or 0.
pub open spec fn last_entry(ls: Seq<Seq<char>>, key: Seq<char>) -> i64
    decreases ls.len(),
{
    if ls.len() == 0 {
        0
    } else {
        match entry_of(ls.last(), key) {
            Some(v) => v,
            None => last_entry(ls.drop_last(), key),
        }
    }
}

pub open spec fn meminfo_of(info: MemInfo, t: Seq<char>) -> bool {
    let ls = fields(t, Separator::Newline);
    &&& info.total_kb == last_entry(ls, "MemTotal:"@)
    &&& info.available_kb == last_entry(ls, "MemAvailable:"@)
    &&& info.free_kb == last_entry(ls, "MemFree:"@)
    &&& info.cached_kb == last_entry(ls, "Cached:"@)
    &&& info.buffers_kb == last_entry(ls, "Buffers:"@)
    &&& info.swap_total_kb == last_entry(ls, "SwapTotal:"@)
    &&& info.swap_free_kb == last_entry(ls, "SwapFree:"@)
}

proof fn lemma_keys_distinct()
    ensures
        "MemTotal:"@ != "MemAvailable:"@,
        "MemTotal:"@ != "MemFree:"@,
        "MemTotal:"@ != "Cached:"@,
        "MemTotal:"@ != "Buffers:"@,
        "MemTotal:"@ != "SwapTotal:"@,
        "MemTotal:"@ != "SwapFree:"@,
        "MemAvailable:"@ != "MemFree:"@,
        "MemAvailable:"@ != "Cached:"@,
        "MemAvailable:"@ != "Buffers:"@,
        "MemAvailable:"@ != "SwapTotal:"@,
        "MemAvailable:"@ != "SwapFree:"@,
        "MemFree:"@ != "Cached:"@,
        "MemFree:"@ != "Buffers:"@,
        "MemFree:"@ != "SwapTotal:"@,
        "MemFree:"@ != "SwapFree:"@,
        "Cached:"@ != "Buffers:"@,
        "Cached:"@ != "SwapTotal:"@,
        "Cached:"@ != "SwapFree:"@,
        "Buffers:"@ != "SwapTotal:"@,
        "Buffers:"@ != "SwapFree:"@,
        "SwapTotal:"@ != "SwapFree:"@,
{
    reveal_strlit("MemTotal:");
    reveal_strlit("MemAvailable:");
    reveal_strlit("MemFree:");
    reveal_strlit("Cached:");
    reveal_strlit("Buffers:");
    reveal_strlit("SwapTotal:");
    reveal_strlit("SwapFree:");
    assert("MemTotal:"@.len() == 9);
    assert("MemTotal:"@[0] == 'M');
    assert("MemAvailable:"@.len() == 13);
    assert("MemAvailable:"@[0] == 'M');
    assert("MemFree:"@.len() == 8);
    assert("MemFree:"@[0] == 'M');
    assert("Cached:"@.len() == 7);
    assert("Cached:"@[0] == 'C');
    assert("Buffers:"@.len() == 8);
    assert("Buffers:"@[0] == 'B');
    assert("SwapTotal:"@.len() == 10);
    assert("SwapTotal:"@[0] == 'S');
    assert("SwapFree:"@.len() == 9);
    assert("SwapFree:"@[0] == 'S');
}

/// Reads the figures of a `/proc/meminfo` report.
pub fn meminfo_from(report: &str) -> (r: MemInfo)
    ensures
        meminfo_of(r, report@),
{
    let ls = split_fields(report, Separator::Newline);
    let mut info = MemInfo {
        total_kb: 0,
        available_kb: 0,
        free_kb: 0,
        cached_kb: 0,
        buffers_kb: 0,
        swap_total_kb: 0,
        swap_free_kb: 0,
    };
    let mut i: usize = 0;
    while i < ls.len()
        invariant
            i <= ls@.len(),
            views(ls@) == fields(report@, Separator::Newline),
            ({
                let pre = views(ls@).subrange(0, i as int);
                &&& info.total_kb == last_entry(pre, "MemTotal:"@)
                &&& info.available_kb == last_entry(pre, "MemAvailable:"@)
                &&& info.free_kb == last_entry(pre, "MemFree:"@)
                &&& info.cached_kb == last_entry(pre, "Cached:"@)
                &&& info.buffers_kb == last_entry(pre, "Buffers:"@)
                &&& info.swap_total_kb == last_entry(pre, "SwapTotal:"@)
                &&& info.swap_free_kb == last_entry(pre, "SwapFree:"@)
            }),
        decreases ls@.len() - i,
    {
        let ghost pre = views(ls@).subrange(0, i as int);
        let ghost next = views(ls@).subrange(0, i + 1);
        assert(next.drop_last() =~= pre);
        assert(next.last() == ls@[i as int]@);
        let ws = split_fields(ls[i].as_str(), Separator::Whitespace);
        proof {
            lemma_keys_distinct();
            if ws@.len() >= 2 {
                assert(views(ws@)[0] == ws@[0]@);
                assert(views(ws@)[1] == ws@[1]@);
            }
        }
        if ws.len() >= 2 {
            match parse_i64(ws[1].as_str()) {
                Some(v) => {
                    let key = ws[0].as_str();
                    if same_text(key, "MemTotal:") {
                        info.total_kb = v;
                    } else if same_text(key, "MemAvailable:") {
                        info.available_kb = v;
                    } else if same_text(key, "MemFree:") {
                        info.free_kb = v;
                    } else if same_text(key, "Cached:") {
                        info.cached_kb = v;
                    } else if same_text(key, "Buffers:") {
                        info.buffers_kb = v;
                    } else if same_text(key, "SwapTotal:") {
                        info.swap_total_kb = v;
                    } else if same_text(key, "SwapFree:") {
                        info.swap_free_kb = v;
                    }
                },
                None => {},
            }
        }
        i = i + 1;
    }
    assert(views(ls@).subrange(0, ls@.len() as int) =~= views(ls@));
    info
}

/// Memory figures of the device; all 0 when the report cannot be read.
pub fn read_meminfo<S: AttributeSource>(src: &S) -> (r: MemInfo)
    ensures
        exists|t: Seq<char>| meminfo_of(r, t),
{
    proof {
        let e = Seq::<char>::empty();
        assert(pieces(e, Separator::Newline) == seq![e]);
        assert(seq![e].drop_last() =~= Seq::<Seq<char>>::empty());
        assert(seq![e].last().len() == 0);
        assert(non_empty(Seq::<Seq<char>>::empty()) == Seq::<Seq<char>>::empty());
        assert(non_empty(seq![e]) == non_empty(seq![e].drop_last()));
        assert(fields(e, Separator::Newline) =~= Seq::<Seq<char>>::empty());
        assert(meminfo_of(
            MemInfo {
                total_kb: 0,
                available_kb: 0,
                free_kb: 0,
                cached_kb: 0,
                buffers_kb: 0,
                swap_total_kb: 0,
                swap_free_kb: 0,
            },
            Seq::empty(),
        ));
    }
    match src.read("/proc/meminfo") {
        Some(t) => meminfo_from(t.as_str()),
        None => MemInfo {
            total_kb: 0,
            available_kb: 0,
            free_kb: 0,
            cached_kb: 0,
            buffers_kb: 0,
            swap_total_kb: 0,
            swap_free_kb: 0,
        },
    }
}

/// The size of the compressed swap device in bytes, or 0.
pub fn read_zram_size<S: AttributeSource>(src: &S) -> (r: i64)
    ensures
        exists|rs: Seq<Option<Seq<char>>>|
            rs.len() == 1 && r == or_zero(first_int(rs, i64::MIN, i64::MAX, false)),
{
    let rs = read_all(src, &vec!["/sys/block/zram0/disksize"]);
    let r = match first_int_reading(&rs, i64::MIN, i64::MAX, false) {
        Some(v) => v,
        None => 0,
    };
    assert(texts(rs@).len() == 1 && r == or_zero(first_int(texts(rs@), i64::MIN, i64::MAX, false)));
    r
}

/// The text after the first `[` of `s`, up to the next `]` or the end.
pub open spec fn bracketed(s: Seq<char>) -> Seq<char>
    decreases s.len(),
{
    if s.len() == 0 {
        Seq::empty()
    } else if s[0] == '[' {
        until_close(s.drop_first())
    } else {
        bracketed(s.drop_first())
    }
}

pub open spec fn until_close(s: Seq<char>) -> Seq<char>
    decreases s.len(),
{
    if s.len() == 0 || s[0] == ']' {
        Seq::empty()
    } else {
        seq![s[0]] + until_close(s.drop_first())
    }
}

/// The compression algorithm in use, which `comp_algorithm` marks with
/// brackets among those available.
pub fn current_algorithm(list: &str) -> (r: String)
    ensures
        r@ == bracketed(list@),
{
    let cs = crate::text::chars_of(list);
    let n = cs.len();
    let mut a: usize = 0;
    assert(list@.subrange(0, n as int) =~= list@);
    while a < n && cs[a] != '['
        invariant
            cs@ == list@,
            n == cs@.len(),
            a <= n,
            bracketed(list@) == bracketed(list@.subrange(a as int, n as int)),
        decreases n - a,
    {
        assert(list@.subrange(a as int, n as int).drop_first() =~= list@.subrange(a + 1, n as int));
        a = a + 1;
    }
    if a == n {
        assert(list@.subrange(a as int, n as int) =~= Seq::<char>::empty());
        return String::new();
    }
    let start = a + 1;
    assert(list@.subrange(a as int, n as int).drop_first() =~= list@.subrange(start as int, n as int));
    let mut b: usize = start;
    while b < n && cs[b] != ']'
        invariant
            cs@ == list@,
            n == cs@.len(),
            start <= b <= n,
            until_close(list@.subrange(start as int, n as int)) == list@.subrange(start as int, b as int)
                + until_close(list@.subrange(b as int, n as int)),
        decreases n - b,
    {
        assert(list@.subrange(b as int, n as int).drop_first() =~= list@.subrange(b + 1, n as int));
        assert(list@.subrange(start as int, b + 1) =~= list@.subrange(start as int, b as int)
            + seq![cs@[b as int]]);
        b = b + 1;
    }
    assert(until_close(list@.subrange(b as int, n as int)) =~= Seq::<char>::empty());
    assert(list@.subrange(start as int, b as int) + Seq::<char>::empty() =~= list@.subrange(
        start as int,
        b as int,
    ));
    String::from_str(list.substring_char(start, b))
}

/// The current compression algorithm of the compressed swap device, or
/// `unknown`.
pub fn get_zram_algorithm<S: AttributeSource>(src: &S) -> (r: String)
    ensures
        r@ == "unknown"@ || exists|t: Seq<char>| r@ == bracketed(t),
{
    match src.read("/sys/block/zram0/comp_algorithm") {
        Some(t) => {
            let a = current_algorithm(t.as_str());
            if a.unicode_len() > 0 {
                a
            } else {
                String::from_str("unknown")
            }
        },
        None => String::from_str("unknown"),
    }
}

/// Compressed bytes in MiB from an `mm_stat` report: its second figure,
/// when the first three are numbers.
pub open spec fn compressed_mib_of(t: Seq<char>) -> i64 {
    let ws = fields(t, Separator::Whitespace);
    if ws.len() >= 3 && parsed_i64(ws[0]) is Some && parsed_i64(ws[1]) is Some && parsed_i64(ws[2]) is Some {
        crate::readings::div_trunc(
            crate::readings::div_trunc(parsed_i64(ws[1])->0 as int, 1024),
            1024,
        ) as i64
    } else {
        0
    }
}

pub fn compressed_mib_from(report: &str) -> (r: i64)
    ensures
        r == compressed_mib_of(report@),
{
    let ws = split_fields(report, Separator::Whitespace);
    if ws.len() < 3 {
        return 0;
    }
    match (parse_i64(ws[0].as_str()), parse_i64(ws[1].as_str()), parse_i64(ws[2].as_str())) {
        (Some(_), Some(c), Some(_)) => {
            if c >= 0 {
                c / 1024 / 1024
            } else {
                let k: i64 = (0 - ((0 - (c as i128)) / 1024)) as i64;
                0 - (0 - k) / 1024
            }
        },
        _ => 0,
    }
}

/// Compressed size of the swap device's data in MiB, or 0.
pub fn get_zram_compressed_size<S: AttributeSource>(src: &S) -> (r: i64)
    ensures
        r == 0 || exists|t: Seq<char>| r == compressed_mib_of(t),
{
    match src.read("/sys/block/zram0/mm_stat") {
        Some(t) => compressed_mib_from(t.as_str()),
        None => 0,
    }
}

/// The kernel's swappiness, or -1 when it cannot be read (0 is a valid
/// setting).
pub fn get_swappiness<S: AttributeSource>(src: &S) -> (r: i32)
    ensures
        r == -1 || exists|rs: Seq<Option<Seq<char>>>|
            rs.len() == 1 && first_int(rs, i32::MIN as i64, i32::MAX as i64, false) == Some(r as i64),
{
    let rs = read_all(src, &vec!["/proc/sys/vm/swappiness"]);
    match first_int_reading(&rs, i32::MIN as i64, i32::MAX as i64, false) {
        Some(v) => v as i32,
        None => -1,
    }
}

} // verus!

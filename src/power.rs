//! Battery and suspend readings.
use vstd::prelude::*;
use crate::readings::{
    div_trunc, first_int, first_int_reading, opt_text, or_zero, per_thousand, read_all, texts,
    thousandths_i32,
};
use crate::source::AttributeSource;
use crate::text::{
    contains, fields, has_prefix, has_substring, lower_of, parse_i32, parse_i64, parsed_i32,
    parsed_i64, split_fields, starts_with, to_lower, views, Separator,
};

verus! {

/// The first line of `ls` that holds `pat`.
pub open spec fn first_line_with(ls: Seq<Seq<char>>, pat: Seq<char>) -> Option<Seq<char>>
    decreases ls.len(),
{
    if ls.len() == 0 {
        None
    } else if has_substring(ls[0], pat) {
        Some(ls[0])
    } else {
        first_line_with(ls.drop_first(), pat)
    }
}

/// Finds the first line of `ls` that holds `pat`.
pub fn find_line_with(ls: &Vec<String>, pat: &str) -> (r: Option<usize>)
    ensures
        match r {
            Some(i) => i < ls@.len() && first_line_with(views(ls@), pat@) == Some(ls@[i as int]@),
            None => first_line_with(views(ls@), pat@) is None,
        },
{
    let mut i: usize = 0;
    assert(views(ls@).subrange(0, ls@.len() as int) =~= views(ls@));
    while i < ls.len()
        invariant
            i <= ls@.len(),
            first_line_with(views(ls@), pat@) == first_line_with(
                views(ls@).subrange(i as int, ls@.len() as int),
                pat@,
            ),
        decreases ls@.len() - i,
    {
        let ghost rest = views(ls@).subrange(i as int, ls@.len() as int);
        assert(rest.drop_first() =~= views(ls@).subrange(i + 1, ls@.len() as int));
        if contains(ls[i].as_str(), pat) {
            return Some(i);
        }
        i = i + 1;
    }
    assert(views(ls@).subrange(i as int, ls@.len() as int) =~= Seq::<Seq<char>>::empty());
    None
}

/// The count of successful suspends in a suspend statistics report: the
/// last word of its first line that holds `success:`, or 0.
pub open spec fn suspend_count_of(t: Seq<char>, pat: Seq<char>) -> i32 {
    match first_line_with(fields(t, Separator::Newline), pat) {
        Some(l) => {
            let ws = fields(l, Separator::Whitespace);
            if ws.len() > 0 {
                match parsed_i32(ws.last()) {
                    Some(v) => v,
                    None => 0,
                }
            } else {
                0
            }
        },
        None => 0,
    }
}

pub fn suspend_count_from(report: &str) -> (r: i32)
    ensures
        r == suspend_count_of(report@, "success:"@),
{
    let lines = split_fields(report, Separator::Newline);
    match find_line_with(&lines, "success:") {
        Some(i) => {
            let ws = split_fields(lines[i].as_str(), Separator::Whitespace);
            if ws.len() > 0 {
                match parse_i32(ws[ws.len() - 1].as_str()) {
                    Some(v) => v,
                    None => 0,
                }
            } else {
                0
            }
        },
        None => 0,
    }
}

/// Seconds of idle time in a `/proc/stat` report: the idle jiffies of the
/// first `cpu ` line that has them, over a hundred.
pub open spec fn idle_secs_in(ls: Seq<Seq<char>>, label: Seq<char>) -> Option<i64>
    decreases ls.len(),
{
    if ls.len() == 0 {
        None
    } else {
        let ws = fields(ls[0], Separator::Whitespace);
        if has_prefix(ls[0], label) && ws.len() > 4 && parsed_i64(ws[4]) is Some {
            Some(div_trunc(parsed_i64(ws[4])->0 as int, 100) as i64)
        } else {
            idle_secs_in(ls.drop_first(), label)
        }
    }
}

pub open spec fn idle_secs_of(t: Seq<char>, label: Seq<char>) -> i64 {
    match idle_secs_in(fields(t, Separator::Newline), label) {
        Some(v) => v,
        None => 0,
    }
}

pub fn suspend_time_from(stat: &str) -> (r: i64)
    ensures
        r == idle_secs_of(stat@, "cpu "@),
{
    let ls = split_fields(stat, Separator::Newline);
    let mut i: usize = 0;
    assert(views(ls@).subrange(0, ls@.len() as int) =~= views(ls@));
    while i < ls.len()
        invariant
            i <= ls@.len(),
            views(ls@) == fields(stat@, Separator::Newline),
            idle_secs_in(views(ls@), "cpu "@) == idle_secs_in(
                views(ls@).subrange(i as int, ls@.len() as int),
                "cpu "@,
            ),
        decreases ls@.len() - i,
    {
        let ghost rest = views(ls@).subrange(i as int, ls@.len() as int);
        assert(rest.drop_first() =~= views(ls@).subrange(i + 1, ls@.len() as int));
        assert(rest[0] == ls@[i as int]@);
        if starts_with(ls[i].as_str(), "cpu ") {
            let ws = split_fields(ls[i].as_str(), Separator::Whitespace);
            if ws.len() > 4 {
                match parse_i64(ws[4].as_str()) {
                    Some(j) => {
                        let secs: i64 = if j >= 0 {
                            j / 100
                        } else {
                            (0 - (0 - (j as i128)) / 100) as i64
                        };
                        return secs;
                    },
                    None => {},
                }
            }
        }
        i = i + 1;
    }
    assert(views(ls@).subrange(i as int, ls@.len() as int) =~= Seq::<Seq<char>>::empty());
    0
}

/// What a lowercased battery status says: one that mentions discharging or
/// not says no, else one that mentions charging or full says yes; others
/// say nothing.
pub open spec fn status_verdict(l: Seq<char>) -> Option<bool> {
    if has_substring(l, "discharging"@) || has_substring(l, "not"@) {
        Some(false)
    } else if has_substring(l, "charging"@) || has_substring(l, "full"@) {
        Some(true)
    } else {
        None
    }
}

pub fn status_verdict_of(lower: &str) -> (r: Option<bool>)
    ensures
        r == status_verdict(lower@),
{
    if contains(lower, "discharging") || contains(lower, "not") {
        Some(false)
    } else if contains(lower, "charging") || contains(lower, "full") {
        Some(true)
    } else {
        None
    }
}

/// Whether a list of battery status texts says the battery is charging:
/// the first status that says anything, ignoring case, decides.
pub open spec fn charging_in(rs: Seq<Option<Seq<char>>>) -> bool
    decreases rs.len(),
{
    if rs.len() == 0 {
        false
    } else {
        match rs[0] {
            Some(t) => match status_verdict(lower_of(t)) {
                Some(b) => b,
                None => charging_in(rs.drop_first()),
            },
            None => charging_in(rs.drop_first()),
        }
    }
}

pub fn charging_from(rs: &Vec<Option<String>>) -> (r: bool)
    ensures
        r == charging_in(texts(rs@)),
{
    let mut i: usize = 0;
    assert(texts(rs@).subrange(0, rs@.len() as int) =~= texts(rs@));
    while i < rs.len()
        invariant
            i <= rs@.len(),
            charging_in(texts(rs@)) == charging_in(texts(rs@).subrange(i as int, rs@.len() as int)),
        decreases rs@.len() - i,
    {
        let ghost rest = texts(rs@).subrange(i as int, rs@.len() as int);
        assert(rest.drop_first() =~= texts(rs@).subrange(i + 1, rs@.len() as int));
        assert(rest[0] == opt_text(rs@[i as int]));
        match &rs[i] {
            Some(t) => {
                let l = to_lower(t.as_str());
                match status_verdict_of(l.as_str()) {
                    Some(b) => {
                        return b;
                    },
                    None => {},
                }
            },
            None => {},
        }
        i = i + 1;
    }
    assert(texts(rs@).subrange(i as int, rs@.len() as int) =~= Seq::<Option<Seq<char>>>::empty());
    false
}

/// With every status absent, the battery does not count as charging.
pub proof fn lemma_absent_statuses_not_charging(rs: Seq<Option<Seq<char>>>)
    requires
        forall|i: int| 0 <= i < rs.len() ==> rs[i] is None,
    ensures
        !charging_in(rs),
    decreases rs.len(),
{
    if rs.len() > 0 {
        lemma_absent_statuses_not_charging(rs.drop_first());
    }
}

/// The drain rate in milliamps for a current in microamps: its negation,
/// so that a discharging battery drains at a positive rate.
pub open spec fn drain_of(ua: i64) -> i32 {
    (-div_trunc(ua as int, 1000)) as i32
}

pub fn drain_rate_from(ua: i64) -> (r: i32)
    ensures
        r == drain_of(ua),
{
    let q: i64 = if ua >= 0 { ua / 1000 } else { 0 - ((0 - (ua as i128)) / 1000) as i64 };
    let neg: i64 = 0 - q;
    #[verifier::truncate]
    (neg as i32)
}

fn supply_paths(leaf: u8) -> (r: Vec<&'static str>)
    ensures
        r@.len() == 3,
{
    match leaf {
        0 => vec![
            "/sys/class/power_supply/battery/capacity",
            "/sys/class/power_supply/bms/capacity",
            "/sys/class/power_supply/Battery/capacity",
        ],
        1 => vec![
            "/sys/class/power_supply/battery/current_now",
            "/sys/class/power_supply/bms/current_now",
            "/sys/class/power_supply/Battery/current_now",
        ],
        2 => vec![
            "/sys/class/power_supply/battery/status",
            "/sys/class/power_supply/bms/status",
            "/sys/class/power_supply/Battery/status",
        ],
        3 => vec![
            "/sys/class/power_supply/battery/temp",
            "/sys/class/power_supply/bms/temp",
            "/sys/class/power_supply/Battery/temp",
        ],
        _ => vec![
            "/sys/class/power_supply/battery/voltage_now",
            "/sys/class/power_supply/bms/voltage_now",
            "/sys/class/power_supply/Battery/voltage_now",
        ],
    }
}

/// Battery charge in percent: the first capacity reading in `[0, 100]`, or 0.
pub fn read_battery_level<S: AttributeSource>(src: &S) -> (r: i32)
    ensures
        0 <= r <= 100,
        exists|rs: Seq<Option<Seq<char>>>| rs.len() == 3 && r == or_zero(first_int(rs, 0, 100, false)),
{
    let rs = read_all(src, &supply_paths(0));
    let r = match first_int_reading(&rs, 0, 100, false) {
        Some(v) => v as i32,
        None => 0,
    };
    assert(texts(rs@).len() == 3 && r == or_zero(first_int(texts(rs@), 0, 100, false)));
    r
}

/// Battery current in microamps: the first non-zero reading, or 0.
pub fn read_battery_current_ua<S: AttributeSource>(src: &S) -> (r: i64)
    ensures
        exists|rs: Seq<Option<Seq<char>>>|
            rs.len() == 3 && r == or_zero(first_int(rs, i64::MIN, i64::MAX, true)),
{
    let rs = read_all(src, &supply_paths(1));
    let r = match first_int_reading(&rs, i64::MIN, i64::MAX, true) {
        Some(v) => v,
        None => 0,
    };
    assert(texts(rs@).len() == 3 && r == or_zero(first_int(texts(rs@), i64::MIN, i64::MAX, true)));
    r
}

/// Battery drain in milliamps, positive while discharging.
pub fn read_drain_rate_ma<S: AttributeSource>(src: &S) -> (r: i32)
    ensures
        exists|rs: Seq<Option<Seq<char>>>|
            rs.len() == 3 && r == drain_of(or_zero(first_int(rs, i64::MIN, i64::MAX, true)) as i64),
{
    let ua = read_battery_current_ua(src);
    drain_rate_from(ua)
}

/// The kernel's wakeup event count, or 0.
pub fn read_wakeup_count<S: AttributeSource>(src: &S) -> (r: i32)
    ensures
        exists|rs: Seq<Option<Seq<char>>>|
            rs.len() == 1 && r == or_zero(first_int(rs, i32::MIN as i64, i32::MAX as i64, false)),
{
    let rs = read_all(src, &vec!["/sys/power/wakeup_count"]);
    let r = match first_int_reading(&rs, i32::MIN as i64, i32::MAX as i64, false) {
        Some(v) => v as i32,
        None => 0,
    };
    assert(texts(rs@).len() == 1 && r == or_zero(
        first_int(texts(rs@), i32::MIN as i64, i32::MAX as i64, false),
    ));
    r
}

/// The count of successful suspends, or 0.
pub fn read_suspend_count<S: AttributeSource>(src: &S) -> (r: i32)
    ensures
        r == 0 || exists|t: Seq<char>| r == suspend_count_of(t, "success:"@),
{
    match src.read("/sys/kernel/debug/suspend_stats") {
        Some(t) => suspend_count_from(t.as_str()),
        None => 0,
    }
}

/// Seconds of CPU idle time since boot, or 0.
pub fn read_suspend_time_secs<S: AttributeSource>(src: &S) -> (r: i64)
    ensures
        r == 0 || exists|t: Seq<char>| r == idle_secs_of(t, "cpu "@),
{
    match src.read("/proc/stat") {
        Some(t) => suspend_time_from(t.as_str()),
        None => 0,
    }
}

/// Whether the battery reports that it charges.
pub fn is_charging<S: AttributeSource>(src: &S) -> (r: bool)
    ensures
        exists|rs: Seq<Option<Seq<char>>>| rs.len() == 3 && r == charging_in(rs),
{
    let rs = read_all(src, &supply_paths(2));
    let r = charging_from(&rs);
    assert(texts(rs@).len() == 3 && r == charging_in(texts(rs@)));
    r
}

/// Battery temperature in tenths of a degree, or 0.
pub fn read_battery_temp<S: AttributeSource>(src: &S) -> (r: i32)
    ensures
        exists|rs: Seq<Option<Seq<char>>>|
            rs.len() == 3 && r == or_zero(first_int(rs, i32::MIN as i64, i32::MAX as i64, false)),
{
    let rs = read_all(src, &supply_paths(3));
    let r = match first_int_reading(&rs, i32::MIN as i64, i32::MAX as i64, false) {
        Some(v) => v as i32,
        None => 0,
    };
    assert(texts(rs@).len() == 3 && r == or_zero(
        first_int(texts(rs@), i32::MIN as i64, i32::MAX as i64, false),
    ));
    r
}

/// Battery voltage in millivolts, or 0.
pub fn read_battery_voltage_mv<S: AttributeSource>(src: &S) -> (r: i32)
    ensures
        exists|rs: Seq<Option<Seq<char>>>|
            rs.len() == 3 && r == thousandths_i32(
                or_zero(first_int(rs, i64::MIN, i64::MAX, false)) as i64,
            ),
{
    let rs = read_all(src, &supply_paths(4));
    let r = match first_int_reading(&rs, i64::MIN, i64::MAX, false) {
        Some(v) => per_thousand(v),
        None => 0,
    };
    assert(texts(rs@).len() == 3 && r == thousandths_i32(
        or_zero(first_int(texts(rs@), i64::MIN, i64::MAX, false)) as i64,
    ));
    r
}

/// Charge cycles of the battery, or -1 when no counter can be read (0 is a
/// valid count).
pub fn read_cycle_count<S: AttributeSource>(src: &S) -> (r: i32)
    ensures
        r == -1 || exists|rs: Seq<Option<Seq<char>>>|
            rs.len() == 3 && first_int(rs, i32::MIN as i64, i32::MAX as i64, false) == Some(r as i64),
{
    let paths = vec![
        "/sys/class/power_supply/bms/cycle_count",
        "/sys/class/power_supply/battery/cycle_count",
        "/sys/class/power_supply/bat/cycle_count",
    ];
    let rs = read_all(src, &paths);
    match first_int_reading(&rs, i32::MIN as i64, i32::MAX as i64, false) {
        Some(v) => v as i32,
        None => -1,
    }
}

/// A health text, or `Unknown` when there is none.
pub open spec fn health_of(t: Option<Seq<char>>) -> Seq<char> {
    match t {
        Some(h) => h,
        None => "Unknown"@,
    }
}

pub fn health_from(reading: Option<String>) -> (r: String)
    ensures
        r@ == health_of(opt_text(reading)),
{
    match reading {
        Some(h) => h,
        None => String::from_str("Unknown"),
    }
}

/// The battery's health as the kernel words it, or `Unknown`.
pub fn read_battery_health<S: AttributeSource>(src: &S) -> (r: String)
    ensures
        exists|t: Option<Seq<char>>| r@ == health_of(t),
{
    let reading = src.read("/sys/class/power_supply/battery/health");
    let ghost t = opt_text(reading);
    let r = health_from(reading);
    assert(r@ == health_of(t));
    r
}

} // verus!

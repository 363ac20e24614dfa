//! CPU readings: `/proc/stat` counters, cluster descriptors and per-core
//! state.
use vstd::prelude::*;
use crate::readings::{
    first_int, first_int_reading, opt_text, or_zero, per_thousand, read_all, texts, thousandths_i32,
};
use crate::source::AttributeSource;
use crate::text::{
    fields, find_line_starting, first_line_starting, parse_i32, parse_i64, parsed_i32,
    parsed_i64, signed_decimal, signed_string, split_fields, views, Separator,
};
use crate::topology::{group_cores, group_view, groups_view, has_freq, is_grouping, members, CoreGroup};

verus! {

/// The numbers among `ws`, in order; words that are not numbers are skipped.
pub open spec fn numbers(ws: Seq<Seq<char>>) -> Seq<i64>
    decreases ws.len(),
{
    if ws.len() == 0 {
        Seq::empty()
    } else {
        match parsed_i64(ws.last()) {
            Some(v) => numbers(ws.drop_last()).push(v),
            None => numbers(ws.drop_last()),
        }
    }
}

pub open spec fn seq_sum(v: Seq<i64>) -> int
    decreases v.len(),
{
    if v.len() == 0 {
        0
    } else {
        seq_sum(v.drop_last()) + v.last()
    }
}

pub open spec fn fits_i64(v: int) -> bool {
    i64::MIN <= v <= i64::MAX
}

/// The `(total, idle)` jiffies of the aggregate `cpu ` line of a
/// `/proc/stat` report: the sum of its numbers, and its idle plus iowait
/// numbers. `None` when there is no such line, it has fewer than four
/// numbers, or a figure leaves the `i64` range.
pub open spec fn stat_counters(t: Seq<char>, label: Seq<char>) -> Option<(i64, i64)> {
    match first_line_starting(fields(t, Separator::Newline), label) {
        None => None,
        Some(l) => {
            let ws = fields(l, Separator::Whitespace);
            let vs = numbers(if ws.len() == 0 { ws } else { ws.drop_first() });
            let idle = vs[3] + if vs.len() > 4 { vs[4] as int } else { 0 };
            let total = seq_sum(vs);
            if vs.len() < 4 || !fits_i64(idle) || !fits_i64(total) {
                None
            } else {
                Some((total as i64, idle as i64))
            }
        },
    }
}

fn numbers_of(ws: &Vec<String>) -> (r: Vec<i64>)
    requires
        ws@.len() >= 1,
    ensures
        r@ == numbers(views(ws@).drop_first()),
{
    let mut out: Vec<i64> = Vec::new();
    let mut i: usize = 1;
    while i < ws.len()
        invariant
            1 <= i <= ws@.len(),
            out@ == numbers(views(ws@).subrange(1, i as int)),
        decreases ws@.len() - i,
    {
        assert(views(ws@).subrange(1, i + 1).drop_last() =~= views(ws@).subrange(1, i as int));
        assert(views(ws@).subrange(1, i + 1).last() == ws@[i as int]@);
        match parse_i64(ws[i].as_str()) {
            Some(v) => out.push(v),
            None => {},
        }
        i = i + 1;
    }
    assert(views(ws@).subrange(1, ws@.len() as int) =~= views(ws@).drop_first());
    out
}

fn sum_of(vs: &Vec<i64>) -> (r: i128)
    ensures
        r as int == seq_sum(vs@),
{
    let mut sum: i128 = 0;
    let mut i: usize = 0;
    while i < vs.len()
        invariant
            i <= vs@.len(),
            -(i as int) * 0x8000_0000_0000_0000 <= sum <= (i as int) * 0x8000_0000_0000_0000,
            sum as int == seq_sum(vs@.subrange(0, i as int)),
        decreases vs@.len() - i,
    {
        assert(vs@.subrange(0, i + 1).drop_last() =~= vs@.subrange(0, i as int));
        sum = sum + vs[i] as i128;
        i = i + 1;
    }
    assert(vs@.subrange(0, vs@.len() as int) =~= vs@);
    sum
}

/// Reads the aggregate `(total, idle)` jiffies of a `/proc/stat` report.
pub fn read_proc_stat_values(report: &str) -> (r: Option<(i64, i64)>)
    ensures
        r == stat_counters(report@, "cpu "@),
{
    let ls = split_fields(report, Separator::Newline);
    match find_line_starting(&ls, "cpu ") {
        None => None,
        Some(i) => {
            let ws = split_fields(ls[i].as_str(), Separator::Whitespace);
            if ws.len() == 0 {
                return None;
            }
            let vs = numbers_of(&ws);
            if vs.len() < 4 {
                return None;
            }
            let idle: i128 = vs[3] as i128 + if vs.len() > 4 { vs[4] as i128 } else { 0 };
            let total = sum_of(&vs);
            if idle < i64::MIN as i128 || idle > i64::MAX as i128 || total < i64::MIN as i128
                || total > i64::MAX as i128 {
                None
            } else {
                Some((total as i64, idle as i64))
            }
        },
    }
}

/// Battery current in milliamps: the first non-zero microamp reading over a
/// thousand, or 0.
pub fn read_battery_current<S: AttributeSource>(src: &S) -> (r: i32)
    ensures
        exists|rs: Seq<Option<Seq<char>>>|
            rs.len() == 4 && r == thousandths_i32(
                or_zero(first_int(rs, i64::MIN, i64::MAX, true)) as i64,
            ),
{
    let paths = vec![
        "/sys/class/power_supply/battery/current_now",
        "/sys/class/power_supply/bms/current_now",
        "/sys/class/power_supply/Battery/current_now",
        "/sys/class/power_supply/main/current_now",
    ];
    let rs = read_all(src, &paths);
    let r = match first_int_reading(&rs, i64::MIN, i64::MAX, true) {
        Some(v) => per_thousand(v),
        None => 0,
    };
    assert(texts(rs@).len() == 4 && r == thousandths_i32(
        or_zero(first_int(texts(rs@), i64::MIN, i64::MAX, true)) as i64,
    ));
    r
}

/// One frequency cluster: its cores, hardware range and current limits in
/// MHz, and its governor settings.
#[derive(Debug)]
pub struct ClusterInfo {
    pub cluster_number: i32,
    pub cores: Vec<i32>,
    pub min_freq: i32,
    pub max_freq: i32,
    pub current_min_freq: i32,
    pub current_max_freq: i32,
    pub governor: String,
    pub available_governors: Vec<String>,
    pub policy_path: String,
}

/// The texts read for a cluster from its representative core.
pub struct ClusterReadings {
    pub min_freq: Option<String>,
    pub scaling_min: Option<String>,
    pub scaling_max: Option<String>,
    pub governor: Option<String>,
    pub available_governors: Option<String>,
}

/// An `i32` reading, or `default` when it is absent or does not parse.
pub open spec fn int_or(r: Option<Seq<char>>, default: i32) -> i32 {
    match r {
        Some(t) => match parsed_i32(t) {
            Some(v) => v,
            None => default,
        },
        None => default,
    }
}

fn int_or_default(r: &Option<String>, default: i32) -> (v: i32)
    ensures
        v == int_or(opt_text(*r), default),
{
    match r {
        Some(t) => match parse_i32(t.as_str()) {
            Some(v) => v,
            None => default,
        },
        None => default,
    }
}

pub open spec fn default_governors() -> Seq<Seq<char>> {
    seq!["schedutil"@, "performance"@, "powersave"@]
}

/// What a cluster descriptor holds, given its number, its group and the
/// readings of its representative core. Frequencies go from kHz to MHz.
pub open spec fn cluster_of(info: ClusterInfo, number: i32, g: CoreGroup, rd: ClusterReadings) -> bool {
    let min = int_or(opt_text(rd.min_freq), 0);
    &&& info.cluster_number == number
    &&& info.cores@ == g.cores@
    &&& info.min_freq == thousandths_i32(min as i64)
    &&& info.max_freq == thousandths_i32(g.max_freq as i64)
    &&& info.current_min_freq == thousandths_i32(int_or(opt_text(rd.scaling_min), min) as i64)
    &&& info.current_max_freq == thousandths_i32(
        int_or(opt_text(rd.scaling_max), g.max_freq) as i64,
    )
    &&& info.governor@ == match rd.governor {
        Some(t) => t@,
        None => "schedutil"@,
    }
    &&& views(info.available_governors@) == match rd.available_governors {
        Some(t) => fields(t@, Separator::Whitespace),
        None => default_governors(),
    }
    &&& info.policy_path@ == "/sys/devices/system/cpu/cpufreq/policy"@ + signed_decimal(
        g.cores@[0] as int,
    )
}

/// Builds the descriptor of cluster `number` from its group and readings.
pub fn cluster_info_from(number: i32, g: CoreGroup, rd: ClusterReadings) -> (r: ClusterInfo)
    requires
        g.cores@.len() > 0,
    ensures
        cluster_of(r, number, g, rd),
{
    let min = int_or_default(&rd.min_freq, 0);
    let cur_min = int_or_default(&rd.scaling_min, min);
    let cur_max = int_or_default(&rd.scaling_max, g.max_freq);
    let governor = match &rd.governor {
        Some(t) => t.clone(),
        None => String::from_str("schedutil"),
    };
    let available = match &rd.available_governors {
        Some(t) => split_fields(t.as_str(), Separator::Whitespace),
        None => {
            let v = vec![
                String::from_str("schedutil"),
                String::from_str("performance"),
                String::from_str("powersave"),
            ];
            assert(views(v@) =~= default_governors());
            v
        },
    };
    let policy_path = String::from_str("/sys/devices/system/cpu/cpufreq/policy").concat(
        signed_string(g.cores[0] as i64).as_str(),
    );
    ClusterInfo {
        cluster_number: number,
        min_freq: per_thousand(min as i64),
        max_freq: per_thousand(g.max_freq as i64),
        current_min_freq: per_thousand(cur_min as i64),
        current_max_freq: per_thousand(cur_max as i64),
        cores: g.cores,
        governor,
        available_governors: available,
        policy_path,
    }
}

/// `/sys/devices/system/cpu/cpu<core><leaf>`.
pub fn cpu_path(core: i32, leaf: &str) -> (r: String)
    ensures
        r@ == "/sys/devices/system/cpu/cpu"@ + signed_decimal(core as int) + leaf@,
{
    String::from_str("/sys/devices/system/cpu/cpu").concat(signed_string(core as i64).as_str()).concat(
        leaf,
    )
}

proof fn lemma_members_nonempty(cs: Seq<(i32, i32)>, f: i32)
    requires
        has_freq(cs, f),
    ensures
        members(cs, f).len() > 0,
    decreases cs.len(),
{
    let i = choose|i: int| 0 <= i < cs.len() && #[trigger] cs[i].1 == f;
    if cs.last().1 != f {
        assert(i < cs.len() - 1);
        assert(cs.drop_last()[i].1 == f);
        lemma_members_nonempty(cs.drop_last(), f);
    }
}

/// The `k`-th ceiling of a grouping is at least `k + 1`, so a grouping has
/// at most `i32::MAX` groups.
proof fn lemma_ceilings_grow(cs: Seq<(i32, i32)>, gs: Seq<(i32, Seq<i32>)>, k: int)
    requires
        is_grouping(cs, gs),
        0 <= k < gs.len(),
    ensures
        gs[k].0 >= k + 1,
    decreases k,
{
    assert(has_freq(cs, gs[k].0));
    if k > 0 {
        lemma_ceilings_grow(cs, gs, k - 1);
    }
}

/// Probed cores come in ascending order, each among cores 0 to 15.
pub open spec fn probe_order(found: Seq<(i32, i32)>) -> bool {
    &&& forall|k: int| 0 <= k < found.len() ==> 0 <= #[trigger] found[k].0 < 16
    &&& forall|k: int, l: int| 0 <= k < l < found.len() ==> found[k].0 < found[l].0
}

/// Detects the CPU clusters: probes cores 0 to 15, groups those with a
/// positive hardware ceiling by that ceiling, ascending, and numbers the
/// groups 0, 1, ... in that order. Per-cluster settings come from the
/// group's first core.
pub fn detect_cpu_clusters<S: AttributeSource>(src: &S) -> (r: Vec<ClusterInfo>)
    ensures
        forall|i: int| 0 <= i < r@.len() ==> #[trigger] r@[i].cluster_number == i,
        forall|i: int| 0 <= i < r@.len() ==> (#[trigger] r@[i]).cores@.len() > 0,
        forall|i: int, j: int| 0 <= i < j < r@.len() ==> r@[i].max_freq <= r@[j].max_freq,
        exists|found: Seq<(i32, i32)>, gs: Seq<CoreGroup>, rds: Seq<ClusterReadings>|
            #![trigger probe_order(found), groups_view(gs), rds.len()]
            probe_order(found) && is_grouping(found, groups_view(gs)) && gs.len() == r@.len()
                && rds.len() == r@.len() && forall|i: int|
                0 <= i < r@.len() ==> cluster_of(#[trigger] r@[i], i as i32, gs[i], rds[i]),
{
    let mut found: Vec<(i32, i32)> = Vec::new();
    let mut core: i32 = 0;
    while core < 16
        invariant
            0 <= core <= 16,
            probe_order(found@),
            forall|k: int| 0 <= k < found@.len() ==> #[trigger] found@[k].0 < core,
        decreases 16 - core,
    {
        if src.path_exists(cpu_path(core, "").as_str()) {
            let text = src.read(cpu_path(core, "/cpufreq/cpuinfo_max_freq").as_str());
            match text {
                Some(t) => match parse_i32(t.as_str()) {
                    Some(f) => found.push((core, f)),
                    None => {},
                },
                None => {},
            }
        }
        core = core + 1;
    }
    let groups = group_cores(&found);
    let ghost gv = groups_view(groups@);
    let mut clusters: Vec<ClusterInfo> = Vec::new();
    let mut rest = groups;
    let ghost n = rest@.len();
    assert(gv.len() == n);
    proof {
        if n > 0 {
            lemma_ceilings_grow(found@, gv, n - 1);
        }
    }
    assert forall|k: int| 0 <= k < rest@.len() implies group_view(#[trigger] rest@[k]) == gv[0
        + k] by {
        assert(gv[k] == group_view(groups@[k]));
    }
    let ghost mut used: Seq<CoreGroup> = Seq::empty();
    let ghost mut rds: Seq<ClusterReadings> = Seq::empty();
    while rest.len() > 0
        invariant
            used.len() == clusters@.len(),
            rds.len() == clusters@.len(),
            forall|i: int| 0 <= i < used.len() ==> group_view(#[trigger] used[i]) == gv[i],
            forall|i: int|
                0 <= i < clusters@.len() ==> cluster_of(
                    #[trigger] clusters@[i],
                    i as i32,
                    used[i],
                    rds[i],
                ),
            clusters@.len() + rest@.len() == n,
            n == gv.len(),
            n <= i32::MAX,
            is_grouping(found@, gv),
            forall|k: int|
                0 <= k < rest@.len() ==> group_view(#[trigger] rest@[k]) == gv[clusters@.len() + k],
            forall|i: int| 0 <= i < clusters@.len() ==> #[trigger] clusters@[i].cluster_number == i,
            forall|i: int| 0 <= i < clusters@.len() ==> (#[trigger] clusters@[i]).cores@.len() > 0,
            forall|i: int|
                0 <= i < clusters@.len() ==> (#[trigger] clusters@[i]).max_freq == thousandths_i32(
                    gv[i].0 as i64,
                ),
        decreases rest@.len(),
    {
        let ghost before = rest@;
        let g = rest.remove(0);
        assert forall|k: int| 0 <= k < rest@.len() implies group_view(#[trigger] rest@[k])
            == gv[clusters@.len() + 1 + k] by {
            assert(rest@[k] == before[k + 1]);
        }
        let number = clusters.len() as i32;
        proof {
            let k = clusters@.len() as int;
            assert(g == before[0]);
            assert(group_view(g) == gv[k]);
            assert(has_freq(found@, gv[k].0));
            lemma_members_nonempty(found@, gv[k].0);
        }
        let first = g.cores[0];
        let rd = ClusterReadings {
            min_freq: src.read(cpu_path(first, "/cpufreq/cpuinfo_min_freq").as_str()),
            scaling_min: src.read(cpu_path(first, "/cpufreq/scaling_min_freq").as_str()),
            scaling_max: src.read(cpu_path(first, "/cpufreq/scaling_max_freq").as_str()),
            governor: src.read(cpu_path(first, "/cpufreq/scaling_governor").as_str()),
            available_governors: src.read(
                cpu_path(first, "/cpufreq/scaling_available_governors").as_str(),
            ),
        };
        proof {
            used = used.push(g);
            rds = rds.push(rd);
        }
        clusters.push(cluster_info_from(number, g, rd));
    }
    assert(groups_view(used) =~= gv);
    assert forall|i: int, j: int| 0 <= i < j < clusters@.len() implies clusters@[i].max_freq
        <= clusters@[j].max_freq by {
        let a = gv[i].0 as int;
        let b = gv[j].0 as int;
        assert(0 < a < b);
        vstd::arithmetic::div_mod::lemma_div_is_ordered(a, b, 1000);
        assert(crate::readings::div_trunc(a, 1000) == a / 1000);
        assert(crate::readings::div_trunc(b, 1000) == b / 1000);
        vstd::arithmetic::div_mod::lemma_div_is_ordered(0, a, 1000);
        assert(b / 1000 <= b) by (nonlinear_arith)
            requires
                b > 0,
        ;
    }
    clusters
}

pub open spec fn flag_text(b: bool) -> Seq<char> {
    if b {
        "true"@
    } else {
        "false"@
    }
}

/// The JSON object that describes one core.
pub open spec fn core_entry(core: i32, online: bool, freq: i32, governor: Seq<char>) -> Seq<char> {
    "{\"core\":"@ + signed_decimal(core as int) + ",\"online\":"@ + flag_text(online)
        + ",\"freq\":"@ + signed_decimal(freq as int) + ",\"governor\":\""@ + governor + "\"}"@
}

pub fn core_entry_text(core: i32, online: bool, freq: i32, governor: &str) -> (r: String)
    ensures
        r@ == core_entry(core, online, freq, governor@),
{
    let flag = if online { "true" } else { "false" };
    String::from_str("{\"core\":").concat(signed_string(core as i64).as_str()).concat(
        ",\"online\":",
    ).concat(flag).concat(",\"freq\":").concat(signed_string(freq as i64).as_str()).concat(
        ",\"governor\":\"",
    ).concat(governor).concat("\"}")
}

/// `parts` joined by `sep`.
pub open spec fn joined(parts: Seq<Seq<char>>, sep: Seq<char>) -> Seq<char>
    decreases parts.len(),
{
    if parts.len() == 0 {
        Seq::empty()
    } else if parts.len() == 1 {
        parts[0]
    } else {
        joined(parts.drop_last(), sep) + sep + parts.last()
    }
}

/// A JSON array of the given entries.
pub fn json_array(parts: &Vec<String>) -> (r: String)
    ensures
        r@ == "["@ + joined(views(parts@), ","@) + "]"@,
{
    let mut out = String::from_str("[");
    let mut i: usize = 0;
    while i < parts.len()
        invariant
            i <= parts@.len(),
            out@ == "["@ + joined(views(parts@).subrange(0, i as int), ","@),
        decreases parts@.len() - i,
    {
        let ghost pre = views(parts@).subrange(0, i as int);
        let ghost next = views(parts@).subrange(0, i + 1);
        assert(next.drop_last() =~= pre);
        if i > 0 {
            out = out.concat(",");
        }
        out = out.concat(parts[i].as_str());
        proof {
            if i == 0 {
                assert(next.len() == 1);
                assert(joined(pre, ","@) =~= Seq::<char>::empty());
                assert(joined(next, ","@) == next[0]);
            }
        }
        assert(out@ =~= "["@ + joined(next, ","@));
        i = i + 1;
    }
    assert(views(parts@).subrange(0, parts@.len() as int) =~= views(parts@));
    out.concat("]")
}

/// One core's entry, from its readings: core 0 is always online, another
/// core is online unless its `online` file reads other than 1; an online
/// core reports its current clock in MHz and its governor.
pub open spec fn core_state(
    core: i32,
    online: Option<Seq<char>>,
    cur_freq: Option<Seq<char>>,
    governor: Option<Seq<char>>,
) -> Seq<char> {
    let is_online = core == 0 || int_or(online, 1) == 1;
    if is_online {
        core_entry(
            core,
            true,
            crate::readings::div_trunc(int_or(cur_freq, 0) as int, 1000) as i32,
            match governor {
                Some(g) => g,
                None => "unknown"@,
            },
        )
    } else {
        core_entry(core, false, 0, "offline"@)
    }
}

pub fn core_state_text(
    core: i32,
    online: &Option<String>,
    cur_freq: &Option<String>,
    governor: &Option<String>,
) -> (r: String)
    ensures
        r@ == core_state(core, opt_text(*online), opt_text(*cur_freq), opt_text(*governor)),
{
    let is_online = core == 0 || int_or_default(online, 1) == 1;
    if is_online {
        let f = int_or_default(cur_freq, 0);
        let mhz = per_thousand(f as i64);
        match governor {
            Some(g) => core_entry_text(core, true, mhz, g.as_str()),
            None => core_entry_text(core, true, mhz, "unknown"),
        }
    } else {
        core_entry_text(core, false, 0, "offline")
    }
}

/// The readings of one core: its number, and its `online`, current clock
/// and governor texts.
pub type CoreReading = (i32, Option<Seq<char>>, Option<Seq<char>>, Option<Seq<char>>);

pub open spec fn core_entries(cs: Seq<CoreReading>) -> Seq<Seq<char>> {
    cs.map_values(|c: CoreReading| core_state(c.0, c.1, c.2, c.3))
}

/// Cores listed in ascending order, each among cores 0 to 15.
pub open spec fn core_order(cs: Seq<CoreReading>) -> bool {
    &&& forall|k: int| 0 <= k < cs.len() ==> 0 <= #[trigger] cs[k].0 < 16
    &&& forall|k: int, l: int| 0 <= k < l < cs.len() ==> cs[k].0 < cs[l].0
}

/// A JSON array with the state of each existing core among cores 0 to 15,
/// in ascending order.
pub fn read_core_data<S: AttributeSource>(src: &S) -> (r: String)
    ensures
        exists|cs: Seq<CoreReading>|
            core_order(cs) && r@ == "["@ + joined(core_entries(cs), ","@) + "]"@,
{
    let mut entries: Vec<String> = Vec::new();
    let ghost mut cs: Seq<CoreReading> = Seq::empty();
    let mut core: i32 = 0;
    while core < 16
        invariant
            0 <= core <= 16,
            core_order(cs),
            forall|k: int| 0 <= k < cs.len() ==> #[trigger] cs[k].0 < core,
            views(entries@) == core_entries(cs),
        decreases 16 - core,
    {
        if src.path_exists(cpu_path(core, "").as_str()) {
            let online = if core == 0 {
                None
            } else {
                src.read(cpu_path(core, "/online").as_str())
            };
            let cur = src.read(cpu_path(core, "/cpufreq/scaling_cur_freq").as_str());
            let gov = src.read(cpu_path(core, "/cpufreq/scaling_governor").as_str());
            let e = core_state_text(core, &online, &cur, &gov);
            let ghost old_cs = cs;
            let ghost old_entries = entries@;
            proof {
                cs = cs.push((core, opt_text(online), opt_text(cur), opt_text(gov)));
            }
            entries.push(e);
            assert forall|k: int| 0 <= k < cs.len() implies views(entries@)[k] == core_entries(
                cs,
            )[k] by {
                assert(views(old_entries).len() == old_entries.len());
                assert(core_entries(old_cs).len() == old_cs.len());
                assert(entries@ == old_entries.push(e));
                if k < old_cs.len() {
                    assert(entries@[k] == old_entries[k]);
                    assert(views(old_entries)[k] == core_entries(old_cs)[k]);
                    assert(cs[k] == old_cs[k]);
                }
            }
            assert(views(old_entries).len() == old_entries.len());
            assert(core_entries(old_cs).len() == old_cs.len());
            assert(entries@.len() == cs.len());
            assert(views(entries@).len() == entries@.len());
            assert(core_entries(cs).len() == cs.len());
            assert(views(entries@) =~= core_entries(cs));
        }
        core = core + 1;
    }
    json_array(&entries)
}

} // verus!

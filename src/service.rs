//! The telemetry service: one owner for the value cache, the path resolver,
//! the counter baselines and the memoized detections, and the metrics that
//! use them.
use vstd::prelude::*;
use crate::cache::{cached_read, text_of, CacheModel, ValueCache};
use crate::counters::{
    kind_of, lemma_rates_in_range, lookup, rate_ceiling, CounterModel, CounterState,
    CounterTable, Metric,
};
use crate::cpu::{read_proc_stat_values, stat_counters};
use crate::disk::{bytes_of_sectors, device_sectors, read_device_stats, sector_bytes, DiskStats};
use crate::gpu::{
    busy_counters_from, busy_counters_of, freq_range, freq_to_mhz, frequencies_from, gpu_cascade,
    gpu_from_probes, mali_freq_to_mhz, mali_mhz_of, mhz_list, mhz_of, vendor_from_renderer,
    vendor_mentioned, GpuInfo, GpuProbes, GpuVendor,
};
use crate::resolver::{discovered, list_view, PathModel, PathResolver};
use crate::source::AttributeSource;
use crate::stats::ReadStats;
use crate::text::{
    contains, fields, parse_i32, parse_i64, parsed_i32, parsed_i64, signed_decimal, split_fields,
    to_lower, views, Separator,
};
use crate::thermal::{is_cpu_zone, zone_name, zone_name_from, zone_path};

verus! {

/// Every rate a counter table holds lies between zero and its kind's ceiling.
pub open spec fn rates_in_range(m: CounterModel) -> bool {
    forall|k: (Metric, u32)|
        #![trigger m[k]]
        m.contains_key(k) ==> 0 <= m[k].rate <= rate_ceiling(kind_of(k.0))
}

/// What a memoized detection does: the first result is kept, and every
/// later call returns it.
pub open spec fn memo_step(
    old: Option<(GpuVendor, Seq<char>)>,
    new: Option<(GpuVendor, Seq<char>)>,
    r: (GpuVendor, Seq<char>),
) -> bool {
    match old {
        Some(v) => r == v && new == old,
        None => new == Some(r),
    }
}

/// Aggregate CPU load is not sampled again within 100 ms of the last
/// sample: the last rate is served instead.
pub open spec fn within_window(p: CounterState, now: u64) -> bool {
    now > 0 && p.sampled_at > 0 && now >= p.sampled_at && now - p.sampled_at < 100
}

pub open spec fn parsed_i32_of(t: Option<Seq<char>>) -> Option<i32> {
    match t {
        Some(x) => parsed_i32(x),
        None => None,
    }
}

pub open spec fn parsed_i64_of(t: Option<Seq<char>>) -> Option<i64> {
    match t {
        Some(x) => parsed_i64(x),
        None => None,
    }
}

/// Whether a candidate's text ends a chain of reads: any text (mode 0), a
/// text that parses as `i32` (mode 1), or a non-empty list of clocks
/// (mode 2).
pub open spec fn chain_accepts(t: Seq<char>, mode: u8) -> bool {
    if mode == 1 {
        parsed_i32(t) is Some
    } else if mode == 2 {
        mhz_list(fields(t, Separator::Whitespace)).len() > 0
    } else {
        true
    }
}

fn chain_accepts_text(t: &str, mode: u8) -> (r: bool)
    ensures
        r == chain_accepts(t@, mode),
{
    if mode == 1 {
        parse_i32(t).is_some()
    } else if mode == 2 {
        frequencies_from(t).len() > 0
    } else {
        true
    }
}

/// Candidates read in turn through the cache, from cache `c0` to cache
/// `c`: each read is a cached read, and the first text accepted is `r`;
/// `None` when no candidate gives one.
pub open spec fn cached_chain(
    c0: CacheModel,
    c: CacheModel,
    paths: Seq<Seq<char>>,
    ttl: u64,
    now: u64,
    mode: u8,
    r: Option<Seq<char>>,
) -> bool
    decreases paths.len(),
{
    if paths.len() == 0 {
        r is None && c == c0
    } else {
        exists|t: Option<Seq<char>>, c1: CacheModel|
            #[trigger] cached_read(c0, c1, paths[0], ttl, now, t) && if t is Some && chain_accepts(
                t->0,
                mode,
            ) {
                r == t && c == c1
            } else {
                cached_chain(c1, c, paths.drop_first(), ttl, now, mode, r)
            }
    }
}

/// A chain's answer is a text that its mode accepts.
proof fn lemma_chain_accepts(
    c0: CacheModel,
    c: CacheModel,
    paths: Seq<Seq<char>>,
    ttl: u64,
    now: u64,
    mode: u8,
    r: Option<Seq<char>>,
)
    requires
        cached_chain(c0, c, paths, ttl, now, mode, r),
    ensures
        r matches Some(t) ==> chain_accepts(t, mode),
    decreases paths.len(),
{
    if paths.len() > 0 {
        let (t, c1) = choose|t: Option<Seq<char>>, c1: CacheModel|
            #[trigger] cached_read(c0, c1, paths[0], ttl, now, t) && if t is Some && chain_accepts(
                t->0,
                mode,
            ) {
                r == t && c == c1
            } else {
                cached_chain(c1, c, paths.drop_first(), ttl, now, mode, r)
            };
        if !(t is Some && chain_accepts(t->0, mode)) {
            lemma_chain_accepts(c1, c, paths.drop_first(), ttl, now, mode, r);
        }
    }
}

/// A text, or `unknown` for none.
pub open spec fn or_unknown(x: Option<Seq<char>>) -> Seq<char> {
    match x {
        Some(t) => t,
        None => "unknown"@,
    }
}

pub open spec fn int_or_zero(x: Option<Seq<char>>) -> int {
    match x {
        Some(t) => match parsed_i32(t) {
            Some(v) => v as int,
            None => 0,
        },
        None => 0,
    }
}

/// What one Adreno busy reading does, given the percentage file's text `t`
/// and the cycle counters' text `g`: a percentage that parses is the
/// answer; else counters that parse are sampled; else 0.
pub open spec fn adreno_busy_outcome(
    c0: CounterModel,
    c1: CounterModel,
    t: Option<Seq<char>>,
    g: Option<Seq<char>>,
    now: u64,
    r: i32,
) -> bool {
    if t is Some && parsed_i32(t->0) is Some {
        r == parsed_i32(t->0)->0 && c1 == c0
    } else if g is Some && busy_counters_of(g->0) is Some {
        let (busy, total) = busy_counters_of(g->0)->0;
        crate::counters::sampled(c0, c1, Metric::GpuBusy, 0, total, busy, now, r as i64)
    } else {
        r == 0 && c1 == c0
    }
}

/// The last CPU load of a counter table, or 0.
pub open spec fn cached_load(m: CounterModel) -> i64 {
    match lookup(m, (Metric::CpuLoad, 0u32)) {
        Some(p) => p.rate,
        None => 0,
    }
}

pub open spec fn adreno_clock_paths() -> Seq<Seq<char>> {
    seq![
        "/sys/class/kgsl/kgsl-3d0/gpuclk"@,
        "/sys/class/kgsl/kgsl-3d0/devfreq/cur_freq"@,
        "/sys/class/kgsl/kgsl-3d0/clock_mhz"@,
    ]
}

pub open spec fn mali_clock_paths() -> Seq<Seq<char>> {
    seq!["/sys/class/misc/mali0/device/clock"@, "/sys/devices/platform/mali/clock"@]
}

pub open spec fn mali_busy_paths() -> Seq<Seq<char>> {
    seq![
        "/sys/class/misc/mali0/device/utilization"@,
        "/sys/devices/platform/mali/utilization"@,
    ]
}

pub open spec fn gpu_frequency_paths() -> Seq<Seq<char>> {
    seq![
        "/sys/class/kgsl/kgsl-3d0/gpu_available_frequencies"@,
        "/sys/class/kgsl/kgsl-3d0/devfreq/available_frequencies"@,
    ]
}

pub open spec fn gpu_governor_paths() -> Seq<Seq<char>> {
    seq!["/sys/class/kgsl/kgsl-3d0/devfreq/governor"@, "/sys/class/kgsl/kgsl-3d0/governor"@]
}

pub open spec fn gpu_policy_list_paths() -> Seq<Seq<char>> {
    seq![
        "/sys/class/kgsl/kgsl-3d0/devfreq/available_governors"@,
        "/sys/class/kgsl/kgsl-3d0/available_governors"@,
    ]
}

pub open spec fn gpu_model_paths() -> Seq<Seq<char>> {
    seq!["/sys/class/kgsl/kgsl-3d0/gpu_model"@, "/sys/class/kgsl/kgsl-3d0/devfreq/gpu_model"@]
}

/// `r` is the least and greatest of `fs`, or `(0, 0)` for none.
pub open spec fn range_of(fs: Seq<i32>, r: (i32, i32)) -> bool {
    if fs.len() == 0 {
        r == (0i32, 0i32)
    } else {
        fs.contains(r.0) && fs.contains(r.1) && forall|i: int| 0 <= i < fs.len() ==> r.0 <= #[trigger] fs[i] <= r.1
    }
}

/// What one disk reading does, given the report `t`: device `i` is the
/// first listed that the report gives counters for, its bytes are its
/// sectors times 512, and its read and then write throughput are sampled,
/// from counters `c0` through `mid` to `c1`.
pub open spec fn disk_outcome(
    c0: CounterModel,
    mid: CounterModel,
    c1: CounterModel,
    t: Seq<char>,
    i: int,
    sr: u64,
    sw: u64,
    now: u64,
    r: DiskStats,
) -> bool {
    &&& 0 <= i < 3
    &&& forall|j: int|
        0 <= j < i ==> device_sectors(fields(t, Separator::Newline), #[trigger] disk_devices()[j])
            is None
    &&& device_sectors(fields(t, Separator::Newline), disk_devices()[i]) == Some((sr, sw))
    &&& r.read_bytes == sector_bytes(sr)
    &&& r.write_bytes == sector_bytes(sw)
    &&& crate::counters::sampled(
        c0,
        mid,
        Metric::DiskRead,
        i as u32,
        counter_of(now),
        counter_of(sector_bytes(sr)),
        now,
        r.read_speed as i64,
    )
    &&& crate::counters::sampled(
        mid,
        c1,
        Metric::DiskWrite,
        i as u32,
        counter_of(now),
        counter_of(sector_bytes(sw)),
        now,
        r.write_speed as i64,
    )
}

/// The devices whose transfers are reported, in order of preference.
pub open spec fn disk_devices() -> Seq<Seq<char>> {
    seq!["sda"@, "mmcblk0"@, "dm-0"@]
}

/// An unsigned figure clamped into the `i64` range.
pub open spec fn counter_of(v: u64) -> i64 {
    if v > i64::MAX as u64 { i64::MAX } else { v as i64 }
}

/// Clamps an unsigned figure into the `i64` range.
fn as_counter(v: u64) -> (r: i64)
    ensures
        r == counter_of(v),
{
    if v > i64::MAX as u64 {
        i64::MAX
    } else {
        v as i64
    }
}

/// The process-wide state of the telemetry core, held by one owner.
pub struct Telemetry {
    cache: ValueCache,
    paths: PathResolver,
    counters: CounterTable,
    gpu: Option<GpuInfo>,
    primary_zone: Option<i32>,
    stats: ReadStats,
    default_ttl: u64,
}

impl Telemetry {
    pub closed spec fn wf(&self) -> bool {
        &&& self.cache.wf()
        &&& self.paths.wf()
        &&& self.counters.wf()
        &&& rates_in_range(self.counters@)
    }

    pub closed spec fn cache_model(&self) -> CacheModel {
        self.cache@
    }

    pub closed spec fn path_model(&self) -> PathModel {
        self.paths@
    }

    pub closed spec fn counter_model(&self) -> CounterModel {
        self.counters@
    }

    /// The GPU detected so far, if any.
    pub closed spec fn detected(&self) -> Option<(GpuVendor, Seq<char>)> {
        match self.gpu {
            Some((v, m)) => Some((v, m@)),
            None => None,
        }
    }

    /// The CPU thermal zone found so far, if any.
    pub closed spec fn zone_memo(&self) -> Option<i32> {
        self.primary_zone
    }

    pub closed spec fn ttl_setting(&self) -> u64 {
        self.default_ttl
    }

    pub closed spec fn read_counts(&self) -> (u64, u64) {
        (self.stats.success, self.stats.failure)
    }

    /// A service with empty caches, no baselines and nothing detected.
    pub fn new() -> (r: Telemetry)
        ensures
            r.wf(),
            r.cache_model() == CacheModel::empty(),
            r.path_model() == PathModel::empty(),
            r.counter_model() == CounterModel::empty(),
            r.detected() is None,
            r.read_counts() == (0u64, 0u64),
            r.ttl_setting() == 300,
    {
        Telemetry {
            cache: ValueCache::new(),
            paths: PathResolver::new(),
            counters: CounterTable::new(),
            gpu: None,
            primary_zone: None,
            stats: ReadStats::new(),
            default_ttl: 300,
        }
    }

    /// Makes the service ready for use; a constructed service already is, so
    /// nothing changes.
    pub fn init_caches(&mut self)
        ensures
            final(self).wf() == old(self).wf(),
            final(self).cache_model() == old(self).cache_model(),
            final(self).path_model() == old(self).path_model(),
            final(self).counter_model() == old(self).counter_model(),
            final(self).detected() == old(self).detected(),
    {
    }

    /// Reads `path` through the value cache (see `ValueCache::read_sysfs_cached`).
    pub fn read_sysfs_cached<S: AttributeSource>(
        &mut self,
        src: &S,
        path: &str,
        ttl_ms: u64,
        now: u64,
    ) -> (r: Option<String>)
        requires
            old(self).wf(),
        ensures
            final(self).wf(),
            cached_read(old(self).cache_model(), final(self).cache_model(), path@, ttl_ms, now, text_of(r)),
            final(self).counter_model() == old(self).counter_model(),
            final(self).detected() == old(self).detected(),
    {
        self.cache.read_sysfs_cached(src, path, ttl_ms, now)
    }

    /// A cached reading of `path` as an `i32`.
    pub fn read_sysfs_int<S: AttributeSource>(&mut self, src: &S, path: &str, ttl_ms: u64, now: u64) -> (r:
        Option<i32>)
        requires
            old(self).wf(),
        ensures
            final(self).wf(),
            exists|t: Option<Seq<char>>|
                cached_read(old(self).cache_model(), final(self).cache_model(), path@, ttl_ms, now, t)
                    && r == parsed_i32_of(t),
            final(self).counter_model() == old(self).counter_model(),
            final(self).detected() == old(self).detected(),
    {
        let t = self.read_sysfs_cached(src, path, ttl_ms, now);
        let r = match &t {
            Some(x) => parse_i32(x.as_str()),
            None => None,
        };
        assert(cached_read(old(self).cache_model(), self.cache_model(), path@, ttl_ms, now, text_of(t))
            && r == parsed_i32_of(text_of(t)));
        r
    }

    /// A cached reading of `path` as an `i64`.
    pub fn read_sysfs_long<S: AttributeSource>(&mut self, src: &S, path: &str, ttl_ms: u64, now: u64) -> (r:
        Option<i64>)
        requires
            old(self).wf(),
        ensures
            final(self).wf(),
            exists|t: Option<Seq<char>>|
                cached_read(old(self).cache_model(), final(self).cache_model(), path@, ttl_ms, now, t)
                    && r == parsed_i64_of(t),
            final(self).counter_model() == old(self).counter_model(),
            final(self).detected() == old(self).detected(),
    {
        let t = self.read_sysfs_cached(src, path, ttl_ms, now);
        let r = match &t {
            Some(x) => parse_i64(x.as_str()),
            None => None,
        };
        assert(cached_read(old(self).cache_model(), self.cache_model(), path@, ttl_ms, now, text_of(t))
            && r == parsed_i64_of(text_of(t)));
        r
    }

    /// Reads `paths[i..]` in turn through the cache, each `ttl_ms` fresh,
    /// until one gives a text of the kind `mode` asks for.
    fn first_cached_from<S: AttributeSource>(
        &mut self,
        src: &S,
        paths: &Vec<&str>,
        i: usize,
        ttl_ms: u64,
        now: u64,
        mode: u8,
    ) -> (r: Option<String>)
        requires
            old(self).wf(),
            i <= paths@.len(),
        ensures
            final(self).wf(),
            final(self).counter_model() == old(self).counter_model(),
            final(self).detected() == old(self).detected(),
            cached_chain(
                old(self).cache_model(),
                final(self).cache_model(),
                list_view(paths@).subrange(i as int, paths@.len() as int),
                ttl_ms,
                now,
                mode,
                text_of(r),
            ),
        decreases paths@.len() - i,
    {
        let ghost rest = list_view(paths@).subrange(i as int, paths@.len() as int);
        if i >= paths.len() {
            assert(rest =~= Seq::<Seq<char>>::empty());
            return None;
        }
        let ghost c0 = self.cache_model();
        assert(rest[0] == paths@[i as int]@);
        let t = self.read_sysfs_cached(src, paths[i], ttl_ms, now);
        let ghost c1 = self.cache_model();
        let ok = match &t {
            Some(x) => chain_accepts_text(x.as_str(), mode),
            None => false,
        };
        if ok {
            assert(cached_read(c0, c1, rest[0], ttl_ms, now, text_of(t)));
            return t;
        }
        let r = self.first_cached_from(src, paths, i + 1, ttl_ms, now, mode);
        assert(rest.drop_first() =~= list_view(paths@).subrange(i + 1, paths@.len() as int));
        assert(cached_read(c0, c1, rest[0], ttl_ms, now, text_of(t)) && cached_chain(
            c1,
            self.cache_model(),
            rest.drop_first(),
            ttl_ms,
            now,
            mode,
            text_of(r),
        ));
        r
    }
    /// The first existing candidate path (see `PathResolver::discover_first_valid`).
    pub fn discover_first_valid<S: AttributeSource>(&mut self, src: &S, candidates: &[&str]) -> (r:
        Option<String>)
        requires
            old(self).wf(),
        ensures
            final(self).wf(),
            exists|answers: Seq<bool>|
                answers.len() <= candidates@.len() && discovered(
                    old(self).path_model(),
                    final(self).path_model(),
                    list_view(candidates@),
                    answers,
                    text_of(r),
                ),
            final(self).cache_model() == old(self).cache_model(),
    {
        let r = self.paths.discover_first_valid(src, candidates);
        proof {
            let a = choose|a: Seq<bool>|
                a.len() <= candidates@.len() && discovered(
                    old(self).paths@,
                    self.paths@,
                    list_view(candidates@),
                    a,
                    crate::resolver::text_of(r),
                );
            assert(crate::resolver::text_of(r) == text_of(r));
            assert(a.len() <= candidates@.len() && discovered(
                old(self).path_model(),
                self.path_model(),
                list_view(candidates@),
                a,
                text_of(r),
            ));
        }
        r
    }

    /// Takes one counter sample (see `CounterTable::sample`), keeping every
    /// stored rate in range.
    pub fn sample(&mut self, metric: Metric, index: u32, total: i64, work: i64, now: u64) -> (r: i64)
        requires
            old(self).wf(),
        ensures
            final(self).wf(),
            crate::counters::sampled(
                old(self).counter_model(),
                final(self).counter_model(),
                metric,
                index,
                total,
                work,
                now,
                r,
            ),
            0 <= r <= rate_ceiling(kind_of(metric)),
            final(self).cache_model() == old(self).cache_model(),
            final(self).detected() == old(self).detected(),
    {
        let r = self.counters.sample(metric, index, total, work, now);
        proof {
            lemma_rates_in_range(
                old(self).counters@,
                self.counters@,
                metric,
                index,
                total,
                work,
                now,
                r,
            );
        }
        r
    }

    /// Aggregate CPU load in hundredths of a percent, from the `/proc/stat`
    /// counters against the previous sample. Within 100 ms of the last
    /// sample, or when the counters cannot be read, the last load is served.
    pub fn read_cpu_load<S: AttributeSource>(&mut self, src: &S, now: u64) -> (r: i64)
        requires
            old(self).wf(),
        ensures
            final(self).wf(),
            0 <= r <= 10000,
            final(self).cache_model() == old(self).cache_model(),
            final(self).detected() == old(self).detected(),
            lookup(old(self).counter_model(), (Metric::CpuLoad, 0u32)) matches Some(p) ==> (
            within_window(p, now) ==> r == p.rate && final(self).counter_model() == old(
                self,
            ).counter_model()),
            (final(self).counter_model() == old(self).counter_model() && r == cached_load(
                old(self).counter_model(),
            )) || exists|t: Seq<char>, total: i64, idle: i64|
                stat_counters(t, "cpu "@) == Some((total, idle)) && crate::counters::sampled(
                    old(self).counter_model(),
                    final(self).counter_model(),
                    Metric::CpuLoad,
                    0,
                    total,
                    idle,
                    now,
                    r,
                ),
    {
        let prev = self.counters.baseline(Metric::CpuLoad, 0);
        let cached: i64 = match prev {
            Some(p) => p.rate,
            None => 0,
        };
        proof {
            if prev is Some {
                assert(self.counters@.contains_key((Metric::CpuLoad, 0u32)));
            }
        }
        match prev {
            Some(p) => {
                if now > 0 && p.sampled_at > 0 && now >= p.sampled_at && now - p.sampled_at < 100 {
                    return p.rate;
                }
            },
            None => {},
        }
        match src.read("/proc/stat") {
            Some(t) => match read_proc_stat_values(t.as_str()) {
                Some((total, idle)) => {
                    let r = self.sample(Metric::CpuLoad, 0, total, idle, now);
                    assert(stat_counters(t@, "cpu "@) == Some((total, idle)));
                    r
                },
                None => cached,
            },
            None => cached,
        }
    }

    /// Runs the probe cascade: Adreno device nodes, Mali device nodes, the
    /// display stack's renderer, the kernel's CPU description, the Vulkan
    /// hardware property. A probe runs only when all before it failed; the
    /// decision is `gpu_from_probes`.
    fn detect_gpu<S: AttributeSource>(&mut self, src: &S, now: u64) -> (r: GpuInfo)
        requires
            old(self).wf(),
        ensures
            final(self).wf(),
            final(self).counter_model() == old(self).counter_model(),
            final(self).detected() == old(self).detected(),
            exists|p: GpuProbes| (r.0, r.1@) == gpu_cascade(p),
    {
        let mut p = GpuProbes {
            gpuclk: src.path_exists("/sys/class/kgsl/kgsl-3d0/gpuclk"),
            adreno_model: None,
            mali_node: false,
            mali_model: None,
            renderer: None,
            cpuinfo: None,
            vulkan: None,
        };
        if p.gpuclk {
            let paths = vec!["/sys/class/kgsl/kgsl-3d0/gpu_model", "/sys/class/kgsl/kgsl-3d0/devfreq/gpu_model"];
            p.adreno_model = self.first_cached_from(src, &paths, 0, 0, now, 0);
        } else {
            let mali_nodes = vec![
                "/sys/class/misc/mali0/device/gpuinfo",
                "/sys/devices/platform/mali/gpuinfo",
                "/dev/mali0",
            ];
            let mut i: usize = 0;
            while i < mali_nodes.len() && !p.mali_node
                decreases mali_nodes@.len() - i,
            {
                p.mali_node = src.path_exists(mali_nodes[i]);
                i = i + 1;
            }
            if p.mali_node {
                let paths = vec!["/sys/class/misc/mali0/device/gpuinfo", "/sys/devices/platform/mali/gpuinfo"];
                p.mali_model = self.first_cached_from(src, &paths, 0, 0, now, 0);
            } else {
                p.renderer = src.renderer_report();
                let decided = match &p.renderer {
                    Some(rep) => vendor_from_renderer(rep.as_str()).is_some(),
                    None => false,
                };
                if !decided {
                    p.cpuinfo = src.read("/proc/cpuinfo");
                    let decided = match &p.cpuinfo {
                        Some(c) => vendor_mentioned(c.as_str()).is_some(),
                        None => false,
                    };
                    if !decided {
                        p.vulkan = src.system_property("ro.hardware.vulkan");
                    }
                }
            }
        }
        gpu_from_probes(&p)
    }

    /// The GPU's vendor and model, detected on the first call and served
    /// unchanged on every later one.
    pub fn detect<S: AttributeSource>(&mut self, src: &S, now: u64) -> (r: GpuInfo)
        requires
            old(self).wf(),
        ensures
            final(self).wf(),
            memo_step(old(self).detected(), final(self).detected(), (r.0, r.1@)),
            old(self).detected() is None ==> exists|p: GpuProbes| (r.0, r.1@) == gpu_cascade(p),
            final(self).counter_model() == old(self).counter_model(),
    {
        match &self.gpu {
            Some((v, m)) => {
                return (*v, m.clone());
            },
            None => {},
        }
        let (v, m) = self.detect_gpu(src, now);
        let out = (v, m.clone());
        self.gpu = Some((v, m));
        out
    }

    /// The GPU vendor (memoized, see `detect`).
    pub fn get_gpu_vendor<S: AttributeSource>(&mut self, src: &S, now: u64) -> (r: GpuVendor)
        requires
            old(self).wf(),
        ensures
            final(self).wf(),
            final(self).detected() matches Some(d) && d.0 == r,
            old(self).detected() is Some ==> final(self).detected() == old(self).detected(),
            old(self).detected() is None ==> exists|p: GpuProbes| final(self).detected() == Some(
                gpu_cascade(p),
            ),
            final(self).counter_model() == old(self).counter_model(),
    {
        self.detect(src, now).0
    }

    /// The GPU model name (memoized, see `detect`).
    pub fn get_gpu_model<S: AttributeSource>(&mut self, src: &S, now: u64) -> (r: String)
        requires
            old(self).wf(),
        ensures
            final(self).wf(),
            final(self).detected() matches Some(d) && d.1 == r@,
            old(self).detected() is Some ==> final(self).detected() == old(self).detected(),
            old(self).detected() is None ==> exists|p: GpuProbes| final(self).detected() == Some(
                gpu_cascade(p),
            ),
            final(self).counter_model() == old(self).counter_model(),
    {
        self.detect(src, now).1
    }

    /// The GPU clock in MHz, read the detected vendor's way from the first
    /// clock file that parses; 0 for other vendors or when none parses.
    pub fn read_gpu_freq<S: AttributeSource>(&mut self, src: &S, now: u64) -> (r: i32)
        requires
            old(self).wf(),
        ensures
            final(self).wf(),
            old(self).detected() is Some ==> final(self).detected() == old(self).detected(),
            final(self).detected() matches Some(d) ==> (d.0 != GpuVendor::Qualcomm && d.0
                != GpuVendor::Mali ==> r == 0),
            final(self).detected() matches Some(d) ==> (d.0 == GpuVendor::Qualcomm ==> exists|
                c: CacheModel,
                x: Option<Seq<char>>,
            |
                cached_chain(c, final(self).cache_model(), adreno_clock_paths(), 200, now, 1, x)
                    && r == match x {
                    Some(t) => mhz_of(parsed_i32(t)->0 as i64),
                    None => 0,
                }),
            final(self).detected() matches Some(d) ==> (d.0 == GpuVendor::Mali ==> exists|
                c: CacheModel,
                x: Option<Seq<char>>,
            |
                cached_chain(c, final(self).cache_model(), mali_clock_paths(), 200, now, 1, x)
                    && r == match x {
                    Some(t) => mali_mhz_of(parsed_i32(t)->0),
                    None => 0,
                }),
    {
        match self.get_gpu_vendor(src, now) {
            GpuVendor::Qualcomm => {
                let paths = vec![
                    "/sys/class/kgsl/kgsl-3d0/gpuclk",
                    "/sys/class/kgsl/kgsl-3d0/devfreq/cur_freq",
                    "/sys/class/kgsl/kgsl-3d0/clock_mhz",
                ];
                assert(list_view(paths@).subrange(0, 3) =~= adreno_clock_paths());
                let ghost c = self.cache_model();
                let res = self.first_cached_from(src, &paths, 0, 200, now, 1);
                proof {
                    lemma_chain_accepts(c, self.cache_model(), adreno_clock_paths(), 200, now, 1, text_of(res));
                }
                let r = match &res {
                    Some(t) => match parse_i32(t.as_str()) {
                        Some(f) => freq_to_mhz(f as i64),
                        None => 0,
                    },
                    None => 0,
                };
                assert(cached_chain(c, self.cache_model(), adreno_clock_paths(), 200, now, 1, text_of(res))
                    && r == match text_of(res) {
                    Some(t) => mhz_of(parsed_i32(t)->0 as i64),
                    None => 0,
                });
                r
            },
            GpuVendor::Mali => {
                let paths = vec!["/sys/class/misc/mali0/device/clock", "/sys/devices/platform/mali/clock"];
                assert(list_view(paths@).subrange(0, 2) =~= mali_clock_paths());
                let ghost c = self.cache_model();
                let res = self.first_cached_from(src, &paths, 0, 200, now, 1);
                proof {
                    lemma_chain_accepts(c, self.cache_model(), mali_clock_paths(), 200, now, 1, text_of(res));
                }
                let r = match &res {
                    Some(t) => match parse_i32(t.as_str()) {
                        Some(f) => mali_freq_to_mhz(f),
                        None => 0,
                    },
                    None => 0,
                };
                assert(cached_chain(c, self.cache_model(), mali_clock_paths(), 200, now, 1, text_of(res))
                    && r == match text_of(res) {
                    Some(t) => mali_mhz_of(parsed_i32(t)->0),
                    None => 0,
                });
                r
            },
            _ => 0,
        }
    }

    /// Adreno busy percentage: the driver's own percentage when it has one,
    /// else the busy share of the cycle counters since the previous call.
    fn read_adreno_busy<S: AttributeSource>(&mut self, src: &S, now: u64) -> (r: i32)
        requires
            old(self).wf(),
        ensures
            final(self).wf(),
            final(self).detected() == old(self).detected(),
            exists|t: Option<Seq<char>>, g: Option<Seq<char>>|
                cached_read(
                    old(self).cache_model(),
                    final(self).cache_model(),
                    "/sys/class/kgsl/kgsl-3d0/gpu_busy_percentage"@,
                    200,
                    now,
                    t,
                ) && adreno_busy_outcome(
                    old(self).counter_model(),
                    final(self).counter_model(),
                    t,
                    g,
                    now,
                    r,
                ),
    {
        let t = self.read_sysfs_cached(src, "/sys/class/kgsl/kgsl-3d0/gpu_busy_percentage", 200, now);
        let ghost c1 = self.cache_model();
        match &t {
            Some(x) => match parse_i32(x.as_str()) {
                Some(b) => {
                    assert(adreno_busy_outcome(
                        old(self).counter_model(),
                        self.counter_model(),
                        text_of(t),
                        None,
                        now,
                        b,
                    ));
                    return b;
                },
                None => {},
            },
            None => {},
        }
        let g = src.read("/sys/class/kgsl/kgsl-3d0/gpubusy");
        let r: i32 = match &g {
            Some(x) => match busy_counters_from(x.as_str()) {
                Some((busy, total)) => {
                    let rate = self.sample(Metric::GpuBusy, 0, total, busy, now);
                    rate as i32
                },
                None => 0,
            },
            None => 0,
        };
        assert(adreno_busy_outcome(
            old(self).counter_model(),
            self.counter_model(),
            text_of(t),
            text_of(g),
            now,
            r,
        ));
        r
    }

    /// The GPU busy percentage, read the detected vendor's way; 0 for others.
    pub fn read_gpu_busy<S: AttributeSource>(&mut self, src: &S, now: u64) -> (r: i32)
        requires
            old(self).wf(),
        ensures
            final(self).wf(),
            old(self).detected() is Some ==> final(self).detected() == old(self).detected(),
            final(self).detected() matches Some(d) ==> (d.0 != GpuVendor::Qualcomm && d.0
                != GpuVendor::Mali ==> r == 0 && final(self).counter_model() == old(
                self,
            ).counter_model()),
            final(self).detected() matches Some(d) ==> (d.0 == GpuVendor::Qualcomm ==> exists|
                c: CacheModel,
                t: Option<Seq<char>>,
                g: Option<Seq<char>>,
            |
                cached_read(
                    c,
                    final(self).cache_model(),
                    "/sys/class/kgsl/kgsl-3d0/gpu_busy_percentage"@,
                    200,
                    now,
                    t,
                ) && adreno_busy_outcome(
                    old(self).counter_model(),
                    final(self).counter_model(),
                    t,
                    g,
                    now,
                    r,
                )),
            final(self).detected() matches Some(d) ==> (d.0 == GpuVendor::Mali ==> exists|
                c: CacheModel,
                x: Option<Seq<char>>,
            |
                cached_chain(c, final(self).cache_model(), mali_busy_paths(), 200, now, 1, x)
                    && r == int_or_zero(x) && final(self).counter_model() == old(
                    self,
                ).counter_model()),
    {
        match self.get_gpu_vendor(src, now) {
            GpuVendor::Qualcomm => self.read_adreno_busy(src, now),
            GpuVendor::Mali => {
                let paths = vec![
                    "/sys/class/misc/mali0/device/utilization",
                    "/sys/devices/platform/mali/utilization",
                ];
                assert(list_view(paths@).subrange(0, 2) =~= mali_busy_paths());
                let ghost c = self.cache_model();
                let res = self.first_cached_from(src, &paths, 0, 200, now, 1);
                let r = match &res {
                    Some(t) => match parse_i32(t.as_str()) {
                        Some(b) => b,
                        None => 0,
                    },
                    None => 0,
                };
                assert(cached_chain(c, self.cache_model(), mali_busy_paths(), 200, now, 1, text_of(res))
                    && r == int_or_zero(text_of(res)));
                r
            },
            _ => 0,
        }
    }

    /// The GPU's available clocks in MHz, from the first list file that
    /// yields any; empty when none does.
    pub fn get_gpu_available_frequencies<S: AttributeSource>(&mut self, src: &S, now: u64) -> (r:
        Vec<i32>)
        requires
            old(self).wf(),
        ensures
            final(self).wf(),
            final(self).counter_model() == old(self).counter_model(),
            final(self).detected() == old(self).detected(),
            exists|x: Option<Seq<char>>|
                cached_chain(
                    old(self).cache_model(),
                    final(self).cache_model(),
                    gpu_frequency_paths(),
                    0,
                    now,
                    2,
                    x,
                ) && r@ == match x {
                    Some(t) => mhz_list(fields(t, Separator::Whitespace)),
                    None => Seq::<i32>::empty(),
                },
    {
        let paths = vec![
            "/sys/class/kgsl/kgsl-3d0/gpu_available_frequencies",
            "/sys/class/kgsl/kgsl-3d0/devfreq/available_frequencies",
        ];
        assert(list_view(paths@).subrange(0, 2) =~= gpu_frequency_paths());
        let res = self.first_cached_from(src, &paths, 0, 0, now, 2);
        let r = match &res {
            Some(t) => frequencies_from(t.as_str()),
            None => Vec::new(),
        };
        assert(r@ == match text_of(res) {
            Some(t) => mhz_list(fields(t, Separator::Whitespace)),
            None => Seq::<i32>::empty(),
        });
        r
    }

    /// The least and greatest available GPU clock in MHz; `(0, 0)` when
    /// none is known.
    pub fn get_gpu_freq_range<S: AttributeSource>(&mut self, src: &S, now: u64) -> (r: (i32, i32))
        requires
            old(self).wf(),
        ensures
            final(self).wf(),
            exists|x: Option<Seq<char>>|
                #[trigger] cached_chain(
                    old(self).cache_model(),
                    final(self).cache_model(),
                    gpu_frequency_paths(),
                    0,
                    now,
                    2,
                    x,
                ) && range_of(
                    match x {
                        Some(t) => mhz_list(fields(t, Separator::Whitespace)),
                        None => Seq::<i32>::empty(),
                    },
                    r,
                ),
    {
        let freqs = self.get_gpu_available_frequencies(src, now);
        let r = freq_range(&freqs);
        proof {
            let x = choose|x: Option<Seq<char>>|
                cached_chain(
                    old(self).cache_model(),
                    self.cache_model(),
                    gpu_frequency_paths(),
                    0,
                    now,
                    2,
                    x,
                ) && freqs@ == match x {
                    Some(t) => mhz_list(fields(t, Separator::Whitespace)),
                    None => Seq::<i32>::empty(),
                };
            assert(range_of(freqs@, r));
        }
        r
    }

    /// The GPU's power policy: the first readable of the devfreq and the
    /// plain governor file, or `unknown`.
    pub fn get_gpu_power_policy<S: AttributeSource>(&mut self, src: &S, now: u64) -> (r: String)
        requires
            old(self).wf(),
        ensures
            final(self).wf(),
            exists|x: Option<Seq<char>>|
                cached_chain(
                    old(self).cache_model(),
                    final(self).cache_model(),
                    gpu_governor_paths(),
                    1000,
                    now,
                    0,
                    x,
                ) && r@ == or_unknown(x),
    {
        let paths = vec![
            "/sys/class/kgsl/kgsl-3d0/devfreq/governor",
            "/sys/class/kgsl/kgsl-3d0/governor",
        ];
        assert(list_view(paths@).subrange(0, 2) =~= gpu_governor_paths());
        let res = self.first_cached_from(src, &paths, 0, 1000, now, 0);
        let r = match res {
            Some(p) => p,
            None => String::from_str("unknown"),
        };
        assert(r@ == or_unknown(text_of(res)));
        r
    }

    /// The GPU's available power policies; empty when unknown.
    pub fn get_gpu_available_policies<S: AttributeSource>(&mut self, src: &S, now: u64) -> (r: Vec<
        String,
    >)
        requires
            old(self).wf(),
        ensures
            final(self).wf(),
            exists|x: Option<Seq<char>>|
                cached_chain(
                    old(self).cache_model(),
                    final(self).cache_model(),
                    gpu_policy_list_paths(),
                    0,
                    now,
                    0,
                    x,
                ) && views(r@) == match x {
                    Some(t) => fields(t, Separator::Whitespace),
                    None => Seq::<Seq<char>>::empty(),
                },
    {
        let paths = vec![
            "/sys/class/kgsl/kgsl-3d0/devfreq/available_governors",
            "/sys/class/kgsl/kgsl-3d0/available_governors",
        ];
        assert(list_view(paths@).subrange(0, 2) =~= gpu_policy_list_paths());
        let res = self.first_cached_from(src, &paths, 0, 0, now, 0);
        let r = match &res {
            Some(t) => split_fields(t.as_str(), Separator::Whitespace),
            None => {
                let v: Vec<String> = Vec::new();
                assert(views(v@) =~= Seq::<Seq<char>>::empty());
                v
            },
        };
        assert(views(r@) == match text_of(res) {
            Some(t) => fields(t, Separator::Whitespace),
            None => Seq::<Seq<char>>::empty(),
        });
        r
    }

    /// The GPU driver's model text, or `unknown`.
    pub fn get_gpu_driver_info<S: AttributeSource>(&mut self, src: &S, now: u64) -> (r: String)
        requires
            old(self).wf(),
        ensures
            final(self).wf(),
            exists|x: Option<Seq<char>>|
                cached_chain(
                    old(self).cache_model(),
                    final(self).cache_model(),
                    gpu_model_paths(),
                    0,
                    now,
                    0,
                    x,
                ) && r@ == or_unknown(x),
    {
        let paths = vec!["/sys/class/kgsl/kgsl-3d0/gpu_model", "/sys/class/kgsl/kgsl-3d0/devfreq/gpu_model"];
        assert(list_view(paths@).subrange(0, 2) =~= gpu_model_paths());
        let res = self.first_cached_from(src, &paths, 0, 0, now, 0);
        let r = match res {
            Some(m) => m,
            None => String::from_str("unknown"),
        };
        assert(r@ == or_unknown(text_of(res)));
        r
    }

    /// Disk transfer totals of the first of `sda`, `mmcblk0`, `dm-0` that
    /// `/proc/diskstats` reports, and its read and write throughput since
    /// that device's previous sample (0 on its first); all 0 when none is
    /// found.
    pub fn read_disk_stats<S: AttributeSource>(&mut self, src: &S, now: u64) -> (r: DiskStats)
        requires
            old(self).wf(),
        ensures
            final(self).wf(),
            final(self).cache_model() == old(self).cache_model(),
            final(self).detected() == old(self).detected(),
            (r.read_bytes == 0 && r.write_bytes == 0 && r.read_speed == 0 && r.write_speed == 0
                && final(self).counter_model() == old(self).counter_model()) || exists|
                t: Seq<char>,
                i: int,
                sr: u64,
                sw: u64,
                mid: CounterModel,
            |
                #[trigger] disk_outcome(
                    old(self).counter_model(),
                    mid,
                    final(self).counter_model(),
                    t,
                    i,
                    sr,
                    sw,
                    now,
                    r,
                ),
    {
        let zero = DiskStats { read_bytes: 0, write_bytes: 0, read_speed: 0, write_speed: 0 };
        let report = match src.read("/proc/diskstats") {
            Some(t) => t,
            None => {
                return zero;
            },
        };
        let devices = vec!["sda", "mmcblk0", "dm-0"];
        assert(list_view(devices@) =~= disk_devices());
        let ghost ls = fields(report@, Separator::Newline);
        let mut i: usize = 0;
        let mut hit: Option<(u64, u64)> = None;
        while i < devices.len() && hit.is_none()
            invariant
                i <= 3,
                devices@.len() == 3,
                list_view(devices@) == disk_devices(),
                ls == fields(report@, Separator::Newline),
                hit is None ==> forall|j: int|
                    0 <= j < i ==> device_sectors(ls, #[trigger] disk_devices()[j]) is None,
                hit matches Some(p) ==> i >= 1 && (forall|j: int|
                    0 <= j < i - 1 ==> device_sectors(ls, #[trigger] disk_devices()[j]) is None)
                    && device_sectors(ls, disk_devices()[i - 1]) == Some(p),
            decreases 3 - i,
        {
            assert(disk_devices()[i as int] == devices@[i as int]@);
            hit = read_device_stats(report.as_str(), devices[i]);
            i = i + 1;
        }
        match hit {
            Some((rs, ws)) => {
                let index = (i - 1) as u32;
                let read_bytes = bytes_of_sectors(rs);
                let write_bytes = bytes_of_sectors(ws);
                let clock = as_counter(now);
                let ghost c0 = self.counter_model();
                let read_speed = self.sample(
                    Metric::DiskRead,
                    index,
                    clock,
                    as_counter(read_bytes),
                    now,
                );
                let ghost mid = self.counter_model();
                let write_speed = self.sample(
                    Metric::DiskWrite,
                    index,
                    clock,
                    as_counter(write_bytes),
                    now,
                );
                let r = DiskStats {
                    read_bytes,
                    write_bytes,
                    read_speed: read_speed as u64,
                    write_speed: write_speed as u64,
                };
                assert(disk_outcome(c0, mid, self.counter_model(), report@, (i - 1) as int, rs, ws, now, r));
                r
            },
            None => zero,
        }
    }

    /// The name of thermal zone `zone` (cached), or `zone<n>`.
    pub fn get_thermal_zone_type<S: AttributeSource>(&mut self, src: &S, zone: i32, now: u64) -> (r:
        String)
        requires
            old(self).wf(),
        ensures
            final(self).wf(),
            final(self).detected() == old(self).detected(),
            exists|t: Option<Seq<char>>|
                cached_read(
                    old(self).cache_model(),
                    final(self).cache_model(),
                    "/sys/class/thermal/thermal_zone"@ + signed_decimal(zone as int) + "/type"@,
                    0,
                    now,
                    t,
                ) && r@ == zone_name(t, zone),
    {
        let path = zone_path(zone, "/type");
        let t = self.read_sysfs_cached(src, path.as_str(), 0, now);
        let ghost tv = text_of(t);
        let r = zone_name_from(t, zone);
        assert(cached_read(old(self).cache_model(), self.cache_model(), path@, 0, now, tv)
            && r@ == zone_name(tv, zone));
        r
    }

    /// The GPU temperature in millidegrees: the reading of the first of
    /// zones 0 to 19 whose name mentions the GPU and whose reading lies
    /// strictly between 0 and 150 degrees; 0 when there is none.
    pub fn read_gpu_temp_milli<S: AttributeSource>(&mut self, src: &S, now: u64) -> (r: i32)
        requires
            old(self).wf(),
        ensures
            final(self).wf(),
            r == 0 || 0 < r < 150000,
    {
        let mut zone: i32 = 0;
        while zone < 20
            invariant
                0 <= zone <= 20,
                self.wf(),
            decreases 20 - zone,
        {
            let type_path = zone_path(zone, "/type");
            match self.read_sysfs_cached(src, type_path.as_str(), 0, now) {
                Some(name) => {
                    if contains(to_lower(name.as_str()).as_str(), "gpu") {
                        let temp_path = zone_path(zone, "/temp");
                        match self.read_sysfs_int(src, temp_path.as_str(), 500, now) {
                            Some(t) => {
                                if 0 < t && t < 150000 {
                                    return t;
                                }
                            },
                            None => {},
                        }
                    }
                },
                None => {},
            }
            zone = zone + 1;
        }
        0
    }

    /// The CPU's thermal zone: the first of zones 0 to 9 whose name is a CPU
    /// sensor's, or 0; found once and then remembered.
    pub fn get_primary_thermal_zone<S: AttributeSource>(&mut self, src: &S, now: u64) -> (r: i32)
        requires
            old(self).wf(),
        ensures
            final(self).wf(),
            0 <= r < 10,
            old(self).zone_memo() matches Some(z) ==> (0 <= z < 10 ==> r == z),
            final(self).zone_memo() == Some(r),
    {
        match self.primary_zone {
            Some(z) => {
                if 0 <= z && z < 10 {
                    return z;
                }
            },
            None => {},
        }
        let mut zone: i32 = 0;
        while zone < 10
            invariant
                0 <= zone <= 10,
                self.wf(),
                old(self).primary_zone is None || !(0 <= old(self).primary_zone->0 < 10),
            decreases 10 - zone,
        {
            let name = self.get_thermal_zone_type(src, zone, now);
            if is_cpu_zone(name.as_str()) {
                self.primary_zone = Some(zone);
                return zone;
            }
            zone = zone + 1;
        }
        self.primary_zone = Some(0);
        0
    }

    pub fn set_default_cache_ttl(&mut self, ttl_ms: u64)
        ensures
            final(self).ttl_setting() == ttl_ms,
            final(self).wf() == old(self).wf(),
            final(self).cache_model() == old(self).cache_model(),
    {
        self.default_ttl = ttl_ms;
    }

    /// The number of cached paths.
    pub fn get_cache_size(&self) -> (r: usize)
        requires
            self.wf(),
        ensures
            r == self.cache_model().dom().len(),
    {
        self.cache.get_cache_size()
    }

    pub fn clear_value_cache(&mut self)
        requires
            old(self).wf(),
        ensures
            final(self).wf(),
            final(self).counter_model() == old(self).counter_model(),
            final(self).detected() == old(self).detected(),
            final(self).zone_memo() == old(self).zone_memo(),
            final(self).read_counts() == old(self).read_counts(),
            final(self).ttl_setting() == old(self).ttl_setting(),
            final(self).cache_model() == CacheModel::empty(),
            final(self).path_model() == old(self).path_model(),
    {
        self.cache.clear_value_cache();
    }

    pub fn clear_path_cache(&mut self)
        requires
            old(self).wf(),
        ensures
            final(self).wf(),
            final(self).counter_model() == old(self).counter_model(),
            final(self).detected() == old(self).detected(),
            final(self).zone_memo() == old(self).zone_memo(),
            final(self).read_counts() == old(self).read_counts(),
            final(self).ttl_setting() == old(self).ttl_setting(),
            final(self).path_model() == PathModel::empty(),
            final(self).cache_model() == old(self).cache_model(),
    {
        self.paths.clear_path_cache();
    }

    /// Empties both the value cache and the path cache.
    pub fn clear_caches(&mut self)
        requires
            old(self).wf(),
        ensures
            final(self).wf(),
            final(self).cache_model() == CacheModel::empty(),
            final(self).path_model() == PathModel::empty(),
            final(self).counter_model() == old(self).counter_model(),
            final(self).detected() == old(self).detected(),
            final(self).zone_memo() == old(self).zone_memo(),
            final(self).read_counts() == old(self).read_counts(),
            final(self).ttl_setting() == old(self).ttl_setting(),
    {
        self.clear_value_cache();
        self.clear_path_cache();
    }

    pub fn track_read_success(&mut self)
        ensures
            final(self).read_counts().0 == (old(self).read_counts().0 + 1) % 0x1_0000_0000_0000_0000,
            final(self).read_counts().1 == old(self).read_counts().1,
            final(self).wf() == old(self).wf(),
    {
        self.stats.track_read_success();
    }

    pub fn track_read_failure(&mut self)
        ensures
            final(self).read_counts().1 == (old(self).read_counts().1 + 1) % 0x1_0000_0000_0000_0000,
            final(self).read_counts().0 == old(self).read_counts().0,
            final(self).wf() == old(self).wf(),
    {
        self.stats.track_read_failure();
    }

    /// `(successful reads, failed reads)`.
    pub fn get_read_stats(&self) -> (r: (u64, u64))
        ensures
            r == self.read_counts(),
    {
        self.stats.get_read_stats()
    }

    pub fn reset_read_stats(&mut self)
        ensures
            final(self).read_counts() == (0u64, 0u64),
            final(self).wf() == old(self).wf(),
    {
        self.stats.reset_read_stats();
    }
}

/// Two detections in a row return the identical vendor and model, whatever
/// the probes would answer the second time: the first result is kept.
pub proof fn lemma_detection_memoized(
    d0: Option<(GpuVendor, Seq<char>)>,
    d1: Option<(GpuVendor, Seq<char>)>,
    d2: Option<(GpuVendor, Seq<char>)>,
    r1: (GpuVendor, Seq<char>),
    r2: (GpuVendor, Seq<char>),
)
    requires
        memo_step(d0, d1, r1),
        memo_step(d1, d2, r2),
    ensures
        r2 == r1,
        d2 == d1,
{
}

} // verus!

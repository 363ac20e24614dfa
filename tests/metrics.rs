use std::collections::{HashMap, HashSet};

use xkm_native::counters::{rate_after, CounterState, CounterTable, Metric, RateKind};
use xkm_native::cpu::{
    cluster_info_from, core_state_text, detect_cpu_clusters, json_array, read_battery_current,
    read_core_data, read_proc_stat_values, ClusterReadings,
};
use xkm_native::disk::{bytes_of_sectors, read_device_stats};
use xkm_native::gpu::{
    adreno_model_of, busy_counters_from, extract_adreno_version,
    extract_mali_version, freq_range, freq_to_mhz, frequencies_from, is_throttled, mali_freq_to_mhz,
    mali_model_of, parse_freq_to_mhz, vendor_from_renderer, vendor_mentioned, GpuVendor,
};
use xkm_native::memory::{
    compressed_mib_from, current_algorithm, get_swappiness, get_zram_algorithm,
    get_zram_compressed_size, meminfo_from, read_meminfo, read_zram_size,
};
use xkm_native::power::{
    charging_from, drain_rate_from, status_verdict_of, is_charging, read_battery_health, read_battery_level,
    read_cycle_count, read_battery_temp,
    read_battery_voltage_mv, read_drain_rate_ma, read_suspend_count, read_suspend_time_secs,
    read_wakeup_count, suspend_count_from, suspend_time_from,
};
use xkm_native::readings::{first_int_reading, get_system_properties, per_thousand};
use xkm_native::resolver::pick_first_present;
use xkm_native::cache::ValueCache;
use xkm_native::gpu::{gpu_from_probes, renderer_info_lowered, vendor_in_lowered, GpuProbes};
use xkm_native::thermal::is_cpu_zone_lowered;
use xkm_native::service::Telemetry;
use xkm_native::source::AttributeSource;
use xkm_native::text::{
    contains, decimal_string, parse_i32, parse_i64, parse_u32, parse_u64, same_text,
    signed_string, split_fields, split_pieces, starts_with, trim, Separator, Trim,
};
use xkm_native::thermal::{is_cpu_zone, zone_name_from};
use xkm_native::topology::{group_cores, CoreGroup};

#[derive(Default)]
struct FakeSource {
    files: HashMap<String, String>,
    dirs: HashSet<String>,
    props: HashMap<String, String>,
    renderer: Option<String>,
}

impl FakeSource {
    fn file(mut self, path: &str, text: &str) -> FakeSource {
        self.files.insert(path.to_string(), text.to_string());
        self
    }

    fn dir(mut self, path: &str) -> FakeSource {
        self.dirs.insert(path.to_string());
        self
    }
}

impl AttributeSource for FakeSource {
    fn read(&self, path: &str) -> Option<String> {
        self.files.get(path).map(|s| s.trim().to_string()).filter(|s| !s.is_empty())
    }

    fn path_exists(&self, path: &str) -> bool {
        self.files.contains_key(path) || self.dirs.contains(path)
    }

    fn system_property(&self, key: &str) -> Option<String> {
        self.props.get(key).cloned()
    }

    fn renderer_report(&self) -> Option<String> {
        self.renderer.clone()
    }
}

fn some(s: &str) -> Option<String> {
    Some(s.to_string())
}

// ---- counter engine ----

#[test]
fn counter_first_sample_is_zero_and_repeat_keeps_rate() {
    let mut c = CounterTable::new();
    assert_eq!(c.sample(Metric::CpuLoad, 0, 1000, 200, 1), 0);
    assert_eq!(c.sample(Metric::CpuLoad, 0, 1000, 200, 2), 0);
    assert_eq!(c.baseline(Metric::CpuLoad, 0).map(|b| (b.total, b.work)), Some((1000, 200)));
}

#[test]
fn counter_monotonic_delta_gives_eighty_percent() {
    let mut c = CounterTable::new();
    c.sample(Metric::CpuLoad, 3, 1000, 200, 1);
    // (500 - 100) / 500 = 80%, in hundredths of a percent
    assert_eq!(c.sample(Metric::CpuLoad, 3, 1500, 300, 2), 8000);
    // an identical repeat serves the last rate
    assert_eq!(c.sample(Metric::CpuLoad, 3, 1500, 300, 3), 8000);
}

#[test]
fn counter_busy_share_and_clamping() {
    let mut c = CounterTable::new();
    c.sample(Metric::GpuBusy, 0, 1000, 200, 1);
    assert_eq!(c.sample(Metric::GpuBusy, 0, 1500, 300, 2), 20);
    // busy delta above total delta clamps to 100
    assert_eq!(c.sample(Metric::GpuBusy, 0, 1600, 900, 3), 100);
    // idle delta above total delta clamps load to 0
    let mut d = CounterTable::new();
    d.sample(Metric::CpuLoad, 0, 1000, 200, 1);
    assert_eq!(d.sample(Metric::CpuLoad, 0, 1100, 900, 2), 0);
}

#[test]
fn counter_reset_uses_current_reading_as_delta() {
    let mut c = CounterTable::new();
    c.sample(Metric::CpuLoad, 0, 1000, 200, 1);
    // (50 - 10) / 50 = 80%
    assert_eq!(c.sample(Metric::CpuLoad, 0, 50, 10, 2), 8000);
    assert_eq!(c.baseline(Metric::CpuLoad, 0).map(|b| (b.total, b.work)), Some((50, 10)));
    // next delta is against the new baseline: (50 - 40) / 50 = 20%
    assert_eq!(c.sample(Metric::CpuLoad, 0, 100, 50, 3), 2000);
}

#[test]
fn counter_indices_are_independent() {
    let mut c = CounterTable::new();
    c.sample(Metric::CpuLoad, 0, 1000, 200, 1);
    assert_eq!(c.sample(Metric::CpuLoad, 1, 1500, 300, 2), 0);
    assert_eq!(c.sample(Metric::GpuBusy, 0, 1500, 300, 2), 0);
}

#[test]
fn rate_after_per_second() {
    let prev = CounterState { total: 1000, work: 0, sampled_at: 0, rate: 7 };
    assert_eq!(rate_after(RateKind::PerSecond, Some(prev), 1500, 1024), 2048);
    assert_eq!(rate_after(RateKind::PerSecond, Some(prev), 1000, 1024), 7);
    assert_eq!(rate_after(RateKind::PerSecond, None, 1000, 1024), 0);
}

#[test]
fn cpu_load_suppressed_within_window() {
    let stat1 = "cpu  100 0 100 800 0 0 0\ncpu0 1 2 3 4\n";
    let stat2 = "cpu  200 0 200 1000 0 0 0\n";
    let mut src = FakeSource::default().file("/proc/stat", stat1);
    let mut t = Telemetry::new();
    assert_eq!(t.read_cpu_load(&src, 1000), 0);
    src = src.file("/proc/stat", stat2);
    // within 100 ms: the cached load
    assert_eq!(t.read_cpu_load(&src, 1050), 0);
    // later: (400 - 200) / 400 = 50%
    assert_eq!(t.read_cpu_load(&src, 1200), 5000);
}

// ---- text ----

#[test]
fn parse_integers_like_std() {
    assert_eq!(parse_i64("42"), Some(42));
    assert_eq!(parse_i64("-42"), Some(-42));
    assert_eq!(parse_i64("+7"), Some(7));
    assert_eq!(parse_i64("-9223372036854775808"), Some(i64::MIN));
    assert_eq!(parse_i64("9223372036854775808"), None);
    assert_eq!(parse_i64(""), None);
    assert_eq!(parse_i64("-"), None);
    assert_eq!(parse_i64("1 2"), None);
    assert_eq!(parse_i32("2147483648"), None);
    assert_eq!(parse_i32("-2147483648"), Some(i32::MIN));
    assert_eq!(parse_u64("18446744073709551615"), Some(u64::MAX));
    assert_eq!(parse_u64("-1"), None);
    assert_eq!(parse_u32("640"), Some(640));
}

#[test]
fn split_trim_search() {
    assert_eq!(split_fields("  a\tbb  c \n", Separator::Whitespace), vec!["a", "bb", "c"]);
    assert_eq!(split_pieces("Mali--G78", Separator::SpaceOrDash), vec!["Mali", "", "G78"]);
    assert_eq!(split_fields("l1\n\nl2", Separator::Newline), vec!["l1", "l2"]);
    assert_eq!(trim("  x y \n", Trim::Whitespace), "x y");
    assert_eq!(trim("(640)", Trim::NonNumeric), "640");
    assert!(contains("hello world", "o w"));
    assert!(!contains("hello", "hello!"));
    assert!(starts_with("cpu  1 2", "cpu "));
    assert!(!starts_with("cpu0 1 2", "cpu "));
    assert!(same_text("pa", "pa"));
    assert_eq!(decimal_string(0), "0");
    assert_eq!(decimal_string(1234567), "1234567");
    assert_eq!(signed_string(-45), "-45");
    assert_eq!(signed_string(i64::MIN), "-9223372036854775808");
}

// ---- readings ----

#[test]
fn first_int_reading_skips_absent_and_rejected() {
    let rs = vec![None, some("abc"), some("150"), some("85"), some("90")];
    assert_eq!(first_int_reading(&rs, 0, 100, false), Some(85));
    let rs = vec![some("0"), some("-1200")];
    assert_eq!(first_int_reading(&rs, i64::MIN, i64::MAX, true), Some(-1200));
    assert_eq!(first_int_reading(&vec![None, None], 0, 100, false), None);
    assert_eq!(per_thousand(-1500), -1);
    assert_eq!(per_thousand(4_200_000), 4200);
}

#[test]
fn system_properties_keep_only_present_keys() {
    let mut src = FakeSource::default();
    src.props.insert("ro.a".to_string(), "1".to_string());
    src.props.insert("ro.c".to_string(), "3".to_string());
    let r = get_system_properties(&src, &["ro.a", "ro.b", "ro.c"]);
    assert_eq!(r, vec![("ro.a".to_string(), "1".to_string()), ("ro.c".to_string(), "3".to_string())]);
}

// ---- power ----

#[test]
fn battery_readings() {
    let src = FakeSource::default()
        .file("/sys/class/power_supply/battery/capacity", "250")
        .file("/sys/class/power_supply/bms/capacity", "76")
        .file("/sys/class/power_supply/battery/current_now", "0")
        .file("/sys/class/power_supply/bms/current_now", "-350000")
        .file("/sys/class/power_supply/Battery/temp", "312")
        .file("/sys/class/power_supply/battery/voltage_now", "3987000")
        .file("/sys/class/power_supply/battery/status", "Full")
        .file("/sys/power/wakeup_count", "1234");
    assert_eq!(read_battery_level(&src), 76);
    assert_eq!(read_drain_rate_ma(&src), 350);
    assert_eq!(read_battery_current(&src), -350);
    assert_eq!(read_battery_temp(&src), 312);
    assert_eq!(read_battery_voltage_mv(&src), 3987);
    assert!(is_charging(&src));
    assert_eq!(read_wakeup_count(&src), 1234);
}

#[test]
fn charging_status_words() {
    assert!(charging_from(&vec![some("Charging")]));
    assert!(!charging_from(&vec![some("Not charging")]));
    assert!(!charging_from(&vec![some("Discharging")]));
    assert!(!charging_from(&vec![some("Not present")]));
    assert!(charging_from(&vec![some("Unknown"), some("FULL")]));
    assert_eq!(status_verdict_of("discharging"), Some(false));
    assert_eq!(status_verdict_of("idle"), None);
    assert!(!charging_from(&vec![some("Unknown"), some("Not present")]));
    assert!(!charging_from(&vec![None, None]));
    assert_eq!(drain_rate_from(-1_500_000), 1500);
}

#[test]
fn suspend_readings() {
    let report = "success: 17\nfail: 2\n";
    assert_eq!(suspend_count_from(report), 17);
    assert_eq!(suspend_count_from("fail: 1"), 0);
    assert_eq!(suspend_time_from("intr 5\ncpu  10 20 30 12345 7\n"), 123);
    let src = FakeSource::default()
        .file("/sys/kernel/debug/suspend_stats", report)
        .file("/proc/stat", "cpu  1 2 3 456789 0");
    assert_eq!(read_suspend_count(&src), 17);
    assert_eq!(read_suspend_time_secs(&src), 4567);
}

// ---- memory and disk ----

#[test]
fn meminfo_parsing() {
    let report = "MemTotal:  8000000 kB\nMemFree: 100 kB\nMemAvailable: 4000 kB\nBuffers: 5 kB\nCached: 60 kB\nSwapCached: 1 kB\nSwapTotal: 2048 kB\nSwapFree: 1024 kB\nBogus\n";
    let m = meminfo_from(report);
    assert_eq!(m.total_kb, 8000000);
    assert_eq!(m.free_kb, 100);
    assert_eq!(m.available_kb, 4000);
    assert_eq!(m.buffers_kb, 5);
    assert_eq!(m.cached_kb, 60);
    assert_eq!(m.swap_total_kb, 2048);
    assert_eq!(m.swap_free_kb, 1024);
    let src = FakeSource::default().file("/proc/meminfo", report).file("/sys/block/zram0/disksize", "536870912");
    assert_eq!(read_meminfo(&src).total_kb, 8000000);
    assert_eq!(read_zram_size(&src), 536870912);
}

#[test]
fn diskstats_parsing_and_speed() {
    let line1 = " 179 0 mmcblk0 100 0 2000 0 50 0 4000 0 0 0 0 0 0";
    assert_eq!(read_device_stats(line1, "mmcblk0"), Some((2000, 4000)));
    assert_eq!(read_device_stats(line1, "sda"), None);
    assert_eq!(read_device_stats("8 0 sda 1 2", "sda"), None);
    assert_eq!(bytes_of_sectors(2), 1024);
    assert_eq!(bytes_of_sectors(u64::MAX), u64::MAX);

    let mut src = FakeSource::default().file("/proc/diskstats", line1);
    let mut t = Telemetry::new();
    let first = t.read_disk_stats(&src, 1000);
    assert_eq!((first.read_bytes, first.write_bytes, first.read_speed, first.write_speed), (1_024_000, 2_048_000, 0, 0));
    let line2 = " 179 0 mmcblk0 100 0 3000 0 50 0 4000 0 0 0 0 0 0";
    src = src.file("/proc/diskstats", line2);
    let second = t.read_disk_stats(&src, 2000);
    assert_eq!((second.read_speed, second.write_speed), (512_000, 0));
}

#[test]
fn zram_and_vm_settings() {
    assert_eq!(current_algorithm("lzo lzo-rle [lz4] zstd"), "lz4");
    assert_eq!(current_algorithm("[zstd"), "zstd");
    assert_eq!(current_algorithm("lz4"), "");
    assert_eq!(compressed_mib_from("4194304 2097152 3145728 0"), 2);
    assert_eq!(compressed_mib_from("4194304 x 3145728"), 0);
    let src = FakeSource::default()
        .file("/sys/block/zram0/comp_algorithm", "lzo [lz4]")
        .file("/sys/block/zram0/mm_stat", "8388608 3145728 4194304")
        .file("/proc/sys/vm/swappiness", "0")
        .file("/sys/class/power_supply/battery/cycle_count", "412")
        .file("/sys/class/power_supply/battery/health", "Good");
    assert_eq!(get_zram_algorithm(&src), "lz4");
    assert_eq!(get_zram_compressed_size(&src), 3);
    assert_eq!(get_swappiness(&src), 0);
    assert_eq!(read_cycle_count(&src), 412);
    assert_eq!(read_battery_health(&src), "Good");
    let none = FakeSource::default();
    assert_eq!(get_zram_algorithm(&none), "unknown");
    assert_eq!(get_zram_compressed_size(&none), 0);
    assert_eq!(get_swappiness(&none), -1);
    assert_eq!(read_cycle_count(&none), -1);
    assert_eq!(read_battery_health(&none), "Unknown");
}

// ---- cpu ----

#[test]
fn proc_stat_counters() {
    assert_eq!(read_proc_stat_values("cpu  10 20 30 40 50 60\ncpu0 1"), Some((210, 90)));
    assert_eq!(read_proc_stat_values("cpu  10 20 30 40"), Some((100, 40)));
    assert_eq!(read_proc_stat_values("cpu  10 x 20 30 40"), Some((100, 40)));
    assert_eq!(read_proc_stat_values("cpu  10 20 30"), None);
    assert_eq!(read_proc_stat_values("cpu0 10 20 30 40"), None);
}

#[test]
fn core_groups_ordered_and_numbered() {
    let cores = vec![(0, 1800), (1, 1800), (2, 2400), (3, 2400)];
    let g = group_cores(&cores);
    assert_eq!(g.len(), 2);
    assert_eq!((g[0].max_freq, g[0].cores.clone()), (1800, vec![0, 1]));
    assert_eq!((g[1].max_freq, g[1].cores.clone()), (2400, vec![2, 3]));
    let shuffled = vec![(3, 2400), (0, 1800), (2, 2400), (1, 1800), (4, 0)];
    let h = group_cores(&shuffled);
    assert_eq!(h.len(), 2);
    assert_eq!(h[0].max_freq, 1800);
    assert_eq!(h[1].max_freq, 2400);
    let mut a = h[0].cores.clone();
    a.sort();
    let mut b = h[1].cores.clone();
    b.sort();
    assert_eq!((a, b), (vec![0, 1], vec![2, 3]));
}

fn cluster_source() -> FakeSource {
    let mut src = FakeSource::default();
    for (core, max) in [(0, "1800000"), (1, "1800000"), (2, "2400000"), (3, "2400000")] {
        let base = format!("/sys/devices/system/cpu/cpu{}", core);
        src = src.dir(&base).file(&format!("{}/cpufreq/cpuinfo_max_freq", base), max);
    }
    src.file("/sys/devices/system/cpu/cpu2/cpufreq/cpuinfo_min_freq", "500000")
        .file("/sys/devices/system/cpu/cpu2/cpufreq/scaling_max_freq", "2200000")
        .file("/sys/devices/system/cpu/cpu2/cpufreq/scaling_governor", "performance")
        .file("/sys/devices/system/cpu/cpu2/cpufreq/scaling_available_governors", "performance powersave")
        .file("/sys/devices/system/cpu/cpu2/cpufreq/scaling_cur_freq", "1400000")
        .file("/sys/devices/system/cpu/cpu1/online", "0")
}

#[test]
fn clusters_detected_from_sources() {
    let src = cluster_source();
    let c = detect_cpu_clusters(&src);
    assert_eq!(c.len(), 2);
    assert_eq!(c[0].cluster_number, 0);
    assert_eq!(c[0].cores, vec![0, 1]);
    assert_eq!((c[0].min_freq, c[0].max_freq, c[0].current_min_freq, c[0].current_max_freq), (0, 1800, 0, 1800));
    assert_eq!(c[0].governor, "schedutil");
    assert_eq!(c[0].available_governors, vec!["schedutil", "performance", "powersave"]);
    assert_eq!(c[0].policy_path, "/sys/devices/system/cpu/cpufreq/policy0");
    assert_eq!(c[1].cluster_number, 1);
    assert_eq!(c[1].cores, vec![2, 3]);
    assert_eq!((c[1].min_freq, c[1].max_freq, c[1].current_min_freq, c[1].current_max_freq), (500, 2400, 500, 2200));
    assert_eq!(c[1].governor, "performance");
    assert_eq!(c[1].available_governors, vec!["performance", "powersave"]);
    assert_eq!(c[1].policy_path, "/sys/devices/system/cpu/cpufreq/policy2");
}

#[test]
fn cluster_descriptor_from_readings() {
    let g = CoreGroup { max_freq: 2_000_000, cores: vec![4, 5] };
    let rd = ClusterReadings {
        min_freq: some("300000"),
        scaling_min: some("bad"),
        scaling_max: None,
        governor: some("schedutil"),
        available_governors: some("a b"),
    };
    let c = cluster_info_from(7, g, rd);
    assert_eq!((c.cluster_number, c.min_freq, c.max_freq, c.current_min_freq, c.current_max_freq), (7, 300, 2000, 300, 2000));
    assert_eq!(c.policy_path, "/sys/devices/system/cpu/cpufreq/policy4");
}

#[test]
fn core_data_json() {
    let src = cluster_source();
    assert_eq!(
        read_core_data(&src),
        "[{\"core\":0,\"online\":true,\"freq\":0,\"governor\":\"unknown\"},\
{\"core\":1,\"online\":false,\"freq\":0,\"governor\":\"offline\"},\
{\"core\":2,\"online\":true,\"freq\":1400,\"governor\":\"performance\"},\
{\"core\":3,\"online\":true,\"freq\":0,\"governor\":\"unknown\"}]"
    );
    assert_eq!(core_state_text(5, &some("1"), &some("900000"), &some("ondemand")), "{\"core\":5,\"online\":true,\"freq\":900,\"governor\":\"ondemand\"}");
    assert_eq!(json_array(&vec![]), "[]");
}

// ---- gpu ----

#[test]
fn gpu_model_names_and_versions() {
    assert_eq!(adreno_model_of(" 640 "), "Adreno 640");
    assert_eq!(adreno_model_of("Adreno730v2"), "Adreno730v2");
    assert_eq!(mali_model_of("G78"), "Mali G78");
    assert_eq!(mali_model_of("Mali-G710"), "Mali-G710");
    assert_eq!(extract_adreno_version("GLES: Qualcomm, Adreno (TM) 640, OpenGL ES 3.2"), Some("640".to_string()));
    assert_eq!(extract_adreno_version("Adreno (TM) 1000"), None);
    assert_eq!(extract_adreno_version("Adreno a b c 650"), None);
    assert_eq!(extract_mali_version("GLES: ARM, Mali-G78, OpenGL ES"), Some("G78,".to_string()));
    // pieces between adjacent separators are empty, and an empty one ends the match
    assert_eq!(extract_mali_version("Mali--G78"), None);
    assert_eq!(GpuVendor::Mali.to_string(), "ARM Mali");
    assert_eq!(GpuVendor::Unknown.to_string(), "Unknown");
}

#[test]
fn gpu_vendor_probes() {
    let report = "SurfaceFlinger\nGLES: Qualcomm, Adreno (TM) 740, OpenGL ES 3.2\n";
    assert_eq!(vendor_from_renderer(report), Some((GpuVendor::Qualcomm, "Adreno 740".to_string())));
    assert_eq!(vendor_from_renderer("renderer: PowerVR Rogue"), Some((GpuVendor::PowerVR, "PowerVR".to_string())));
    assert_eq!(vendor_from_renderer("GLES: NVIDIA Tegra"), Some((GpuVendor::Nvidia, "Tegra".to_string())));
    assert_eq!(vendor_from_renderer("Adreno 640 without the keyword"), None);
    assert_eq!(vendor_mentioned("Hardware : Qualcomm ADRENO"), Some((GpuVendor::Qualcomm, "Adreno".to_string())));
    assert_eq!(vendor_mentioned("mali"), Some((GpuVendor::Mali, "Mali".to_string())));
    assert_eq!(vendor_mentioned("swiftshader"), None);
}

#[test]
fn gpu_detection_is_memoized() {
    let mut src = FakeSource::default()
        .dir("/sys/class/kgsl/kgsl-3d0/gpuclk")
        .file("/sys/class/kgsl/kgsl-3d0/gpu_model", "Adreno650");
    let mut t = Telemetry::new();
    let first = t.detect(&src, 0);
    assert_eq!(first, (GpuVendor::Qualcomm, "Adreno650".to_string()));
    src = FakeSource::default().dir("/dev/mali0");
    assert_eq!(t.detect(&src, 10), first);
    assert_eq!(t.get_gpu_vendor(&src, 20), GpuVendor::Qualcomm);
    assert_eq!(t.get_gpu_model(&src, 30), "Adreno650");
}

#[test]
fn gpu_detection_cascade() {
    let mali = FakeSource::default().dir("/dev/mali0");
    assert_eq!(Telemetry::new().detect(&mali, 0), (GpuVendor::Mali, "Mali".to_string()));
    let mut flinger = FakeSource::default();
    flinger.renderer = some("GLES: ARM, Mali-G610 MC6, OpenGL ES 3.2");
    assert_eq!(Telemetry::new().detect(&flinger, 0), (GpuVendor::Mali, "Mali G610".to_string()));
    let cpuinfo = FakeSource::default().file("/proc/cpuinfo", "Hardware: adreno board");
    assert_eq!(Telemetry::new().detect(&cpuinfo, 0), (GpuVendor::Qualcomm, "Adreno".to_string()));
    let mut prop = FakeSource::default();
    prop.props.insert("ro.hardware.vulkan".to_string(), "mali".to_string());
    assert_eq!(Telemetry::new().detect(&prop, 0), (GpuVendor::Mali, "Mali".to_string()));
}

#[test]
fn gpu_frequency_units() {
    assert_eq!(freq_to_mhz(585_000_000), 585);
    assert_eq!(freq_to_mhz(585_000), 585);
    assert_eq!(freq_to_mhz(585), 585);
    assert_eq!(mali_freq_to_mhz(850_000_000), 850);
    assert_eq!(mali_freq_to_mhz(850_000), 850_000);
    assert_eq!(parse_freq_to_mhz("0"), None);
    assert_eq!(parse_freq_to_mhz("700000000"), Some(700));
    assert_eq!(frequencies_from("900000000 x 600000 300"), vec![900, 600, 300]);
    assert_eq!(freq_range(&vec![600, 900, 300]), (300, 900));
    assert_eq!(freq_range(&vec![]), (0, 0));
    assert_eq!(busy_counters_from("300 1000"), Some((300, 1000)));
    assert_eq!(busy_counters_from("300"), None);
    assert!(is_throttled(500, 900));
    assert!(!is_throttled(810, 900));
    assert!(!is_throttled(0, 900));
    assert!(!is_throttled(500, 0));
}

#[test]
fn gpu_metrics_through_service() {
    let mut src = FakeSource::default()
        .dir("/sys/class/kgsl/kgsl-3d0/gpuclk")
        .file("/sys/class/kgsl/kgsl-3d0/devfreq/cur_freq", "670000000")
        .file("/sys/class/kgsl/kgsl-3d0/gpubusy", "100 1000")
        .file("/sys/class/kgsl/kgsl-3d0/gpu_available_frequencies", "900000000 300000000")
        .file("/sys/class/kgsl/kgsl-3d0/devfreq/governor", "msm-adreno-tz")
        .file("/sys/class/kgsl/kgsl-3d0/available_governors", "a b")
        .file("/sys/class/kgsl/kgsl-3d0/gpu_model", "Adreno740");
    let mut t = Telemetry::new();
    assert_eq!(t.read_gpu_freq(&src, 0), 670);
    assert_eq!(t.read_gpu_busy(&src, 0), 0);
    src = src.file("/sys/class/kgsl/kgsl-3d0/gpubusy", "350 1500");
    assert_eq!(t.read_gpu_busy(&src, 1), 50);
    assert_eq!(t.get_gpu_available_frequencies(&src, 0), vec![900, 300]);
    assert_eq!(t.get_gpu_freq_range(&src, 0), (300, 900));
    assert_eq!(t.get_gpu_power_policy(&src, 0), "msm-adreno-tz");
    assert_eq!(t.get_gpu_available_policies(&src, 0), vec!["a", "b"]);
    assert_eq!(t.get_gpu_driver_info(&src, 0), "Adreno740");
    let pct = src.file("/sys/class/kgsl/kgsl-3d0/gpu_busy_percentage", "42 %");
    // the percentage file is parsed whole; "42 %" does not parse, so the
    // counters decide, and unmoved counters serve the last rate
    assert_eq!(t.read_gpu_busy(&pct, 500), 50);
    let plain = pct.file("/sys/class/kgsl/kgsl-3d0/gpu_busy_percentage", "42");
    assert_eq!(t.read_gpu_busy(&plain, 1000), 42);
}

// ---- thermal ----

#[test]
fn thermal_zone_names() {
    assert_eq!(zone_name_from(None, 12), "zone12");
    assert_eq!(zone_name_from(some("cpu-0-0"), 1), "cpu-0-0");
    assert!(is_cpu_zone("CPU-1"));
    assert!(is_cpu_zone("tsens_tz_sensor3"));
    assert!(is_cpu_zone("PA"));
    assert!(!is_cpu_zone("pa_therm"));
    let src = FakeSource::default()
        .file("/sys/class/thermal/thermal_zone0/type", "battery")
        .file("/sys/class/thermal/thermal_zone3/type", "cpu-1-0");
    let mut t = Telemetry::new();
    assert_eq!(t.get_thermal_zone_type(&src, 0, 0), "battery");
    assert_eq!(t.get_thermal_zone_type(&src, 5, 0), "zone5");
    assert_eq!(t.get_primary_thermal_zone(&src, 0), 3);
    assert_eq!(t.get_primary_thermal_zone(&FakeSource::default(), 0), 3);
}

#[test]
fn gpu_temperature_from_named_zone() {
    let src = FakeSource::default()
        .file("/sys/class/thermal/thermal_zone0/type", "cpu-0")
        .file("/sys/class/thermal/thermal_zone0/temp", "41000")
        .file("/sys/class/thermal/thermal_zone4/type", "GPUSS-0")
        .file("/sys/class/thermal/thermal_zone4/temp", "160000")
        .file("/sys/class/thermal/thermal_zone7/type", "gpu1")
        .file("/sys/class/thermal/thermal_zone7/temp", "52500");
    let mut t = Telemetry::new();
    assert_eq!(t.read_gpu_temp_milli(&src, 0), 52500);
    assert_eq!(t.read_gpu_temp_milli(&FakeSource::default(), 0), 0);
}

#[test]
fn probe_answers_decide() {
    assert_eq!(pick_first_present(&["/a", "/b", "/c"], &vec![false, true]), Some("/b".to_string()));
    assert_eq!(pick_first_present(&["/a", "/b"], &vec![false, false]), None);
    assert_eq!(pick_first_present(&["/a"], &vec![]), None);
    let none = GpuProbes {
        gpuclk: false,
        adreno_model: None,
        mali_node: false,
        mali_model: None,
        renderer: None,
        cpuinfo: None,
        vulkan: None,
    };
    assert_eq!(gpu_from_probes(&none), (GpuVendor::Unknown, "Unknown GPU".to_string()));
    let adreno = GpuProbes { gpuclk: true, adreno_model: some("740"), ..none };
    assert_eq!(gpu_from_probes(&adreno), (GpuVendor::Qualcomm, "Adreno 740".to_string()));
    let none = GpuProbes {
        gpuclk: false,
        adreno_model: None,
        mali_node: false,
        mali_model: None,
        renderer: some("nothing here"),
        cpuinfo: some("plain cpu"),
        vulkan: some("mali"),
    };
    assert_eq!(gpu_from_probes(&none), (GpuVendor::Mali, "Mali".to_string()));
    assert_eq!(vendor_in_lowered("adreno"), Some((GpuVendor::Qualcomm, "Adreno".to_string())));
    assert_eq!(vendor_in_lowered("ADRENO"), None);
    assert_eq!(
        renderer_info_lowered("GLES: Adreno (TM) 650", "gles: adreno (tm) 650"),
        Some((GpuVendor::Qualcomm, "Adreno 650".to_string()))
    );
    assert!(is_cpu_zone_lowered("pa"));
    assert!(!is_cpu_zone_lowered("PA"));
}

#[test]
fn cache_refresh_takes_the_answer() {
    let mut c = ValueCache::new();
    assert_eq!(c.refresh("/p", 10, Some("7".to_string())), Some("7".to_string()));
    assert_eq!(c.fresh_value("/p", 100, 50), Some("7".to_string()));
    assert_eq!(c.refresh("/p", 200, None), None);
    assert_eq!(c.fresh_value("/p", 100, 60), Some("7".to_string()));
    assert_eq!(c.refresh("/p", 300, Some("8".to_string())), Some("8".to_string()));
    assert_eq!(c.fresh_value("/p", 100, 350), Some("8".to_string()));
    assert_eq!(c.get_cache_size(), 1);
}

// ---- everything absent ----

#[test]
fn absent_sources_give_defaults() {
    let src = FakeSource::default();
    let mut t = Telemetry::new();
    assert_eq!(read_battery_level(&src), 0);
    assert_eq!(read_battery_current(&src), 0);
    assert_eq!(read_drain_rate_ma(&src), 0);
    assert_eq!(read_battery_temp(&src), 0);
    assert_eq!(read_battery_voltage_mv(&src), 0);
    assert_eq!(read_wakeup_count(&src), 0);
    assert_eq!(read_suspend_count(&src), 0);
    assert_eq!(read_suspend_time_secs(&src), 0);
    assert!(!is_charging(&src));
    assert_eq!(read_zram_size(&src), 0);
    assert_eq!(read_meminfo(&src).total_kb, 0);
    assert!(detect_cpu_clusters(&src).is_empty());
    assert_eq!(read_core_data(&src), "[]");
    assert_eq!(t.read_cpu_load(&src, 5), 0);
    assert_eq!(t.detect(&src, 0), (GpuVendor::Unknown, "Unknown GPU".to_string()));
    assert_eq!(t.read_gpu_freq(&src, 0), 0);
    assert_eq!(t.read_gpu_busy(&src, 0), 0);
    assert!(t.get_gpu_available_frequencies(&src, 0).is_empty());
    assert_eq!(t.get_gpu_freq_range(&src, 0), (0, 0));
    assert_eq!(t.get_gpu_power_policy(&src, 0), "unknown");
    assert!(t.get_gpu_available_policies(&src, 0).is_empty());
    assert_eq!(t.get_gpu_driver_info(&src, 0), "unknown");
    let d = t.read_disk_stats(&src, 0);
    assert_eq!((d.read_bytes, d.write_bytes, d.read_speed, d.write_speed), (0, 0, 0, 0));
    assert_eq!(t.get_thermal_zone_type(&src, 2, 0), "zone2");
    assert_eq!(t.get_primary_thermal_zone(&src, 0), 0);
    assert!(get_system_properties(&src, &["ro.x"]).is_empty());
}

use std::collections::{HashMap, HashSet};

use xkm_native::readings::read_sysfs;
use xkm_native::service::Telemetry;
use xkm_native::source::AttributeSource;

struct FakeSource {
    files: HashMap<String, String>,
    dirs: HashSet<String>,
}

impl FakeSource {
    fn new() -> FakeSource {
        FakeSource { files: HashMap::new(), dirs: HashSet::new() }
    }

    fn with_file(mut self, path: &str, text: &str) -> FakeSource {
        self.files.insert(path.to_string(), text.to_string());
        self
    }

    fn with_dir(mut self, path: &str) -> FakeSource {
        self.dirs.insert(path.to_string());
        self
    }

    fn set(&mut self, path: &str, text: &str) {
        self.files.insert(path.to_string(), text.to_string());
    }
}

impl AttributeSource for FakeSource {
    fn read(&self, path: &str) -> Option<String> {
        self.files.get(path).map(|s| s.trim().to_string()).filter(|s| !s.is_empty())
    }

    fn path_exists(&self, path: &str) -> bool {
        self.files.contains_key(path) || self.dirs.contains(path)
    }

    fn system_property(&self, _key: &str) -> Option<String> {
        None
    }

    fn renderer_report(&self) -> Option<String> {
        None
    }
}

const CAPACITY: &str = "/sys/class/power_supply/battery/capacity";
const VOLTAGE: &str = "/sys/class/power_supply/battery/voltage_now";

#[test]
fn test_read_battery_capacity() {
    let src = FakeSource::new().with_file(CAPACITY, "85\n");
    let path = "/sys/class/power_supply/battery/capacity";
    if let Some(value) = read_sysfs(&src, path) {
        println!("Battery: {}%", value);
        assert!(!value.is_empty());
    }
    assert_eq!(read_sysfs(&src, path), Some("85".to_string()));
}

#[test]
fn test_caching() {
    let src = FakeSource::new().with_file(CAPACITY, "85");
    let mut t = Telemetry::new();
    let path = "/sys/class/power_supply/battery/capacity";

    // First read (cache miss)
    let val1 = t.read_sysfs_cached(&src, path, 1000, 10);

    // Second read (cache hit)
    let val2 = t.read_sysfs_cached(&src, path, 1000, 20);

    assert_eq!(val1, val2);
}

#[test]
fn test_path_discovery() {
    let src = FakeSource::new().with_dir("/sys/class/power_supply/bms");
    let mut t = Telemetry::new();
    let candidates = [
        "/sys/class/power_supply/battery",
        "/sys/class/power_supply/bms",
        "/sys/class/power_supply/Battery",
    ];

    if let Some(path) = t.discover_first_valid(&src, &candidates) {
        println!("Battery path: {}", path);
        assert!(src.path_exists(&path));
    }
    assert_eq!(
        t.discover_first_valid(&src, &candidates),
        Some("/sys/class/power_supply/bms".to_string())
    );
}

#[test]
fn test_typed_readers() {
    let src = FakeSource::new().with_file(CAPACITY, "100").with_file(VOLTAGE, "4200000");
    let mut t = Telemetry::new();

    // Test int reader
    if let Some(capacity) = t.read_sysfs_int(&src, "/sys/class/power_supply/battery/capacity", 100, 0) {
        assert!(capacity >= 0 && capacity <= 100);
    }

    // Test long reader
    if let Some(voltage) = t.read_sysfs_long(&src, "/sys/class/power_supply/battery/voltage_now", 100, 0) {
        assert!(voltage > 0);
    }
    assert_eq!(t.read_sysfs_int(&src, CAPACITY, 100, 0), Some(100));
    assert_eq!(t.read_sysfs_long(&src, VOLTAGE, 100, 0), Some(4200000));
}

#[test]
fn cache_serves_value_within_ttl_and_refreshes_after() {
    let mut src = FakeSource::new().with_file(CAPACITY, "50");
    let mut t = Telemetry::new();
    assert_eq!(t.read_sysfs_int(&src, CAPACITY, 1000, 5000), Some(50));
    src.set(CAPACITY, "60");
    assert_eq!(t.read_sysfs_int(&src, CAPACITY, 1000, 5999), Some(50));
    assert_eq!(t.read_sysfs_int(&src, CAPACITY, 1000, 6000), Some(60));
}

#[test]
fn cache_failed_refresh_is_a_miss_and_keeps_entry() {
    let mut src = FakeSource::new().with_file(CAPACITY, "50");
    let mut t = Telemetry::new();
    assert_eq!(t.read_sysfs_cached(&src, CAPACITY, 100, 0), Some("50".to_string()));
    src.files.remove(CAPACITY);
    assert_eq!(t.read_sysfs_cached(&src, CAPACITY, 100, 500), None);
    assert_eq!(t.get_cache_size(), 1);
}

#[test]
fn cache_zero_ttl_always_rereads() {
    let mut src = FakeSource::new().with_file(CAPACITY, "50");
    let mut t = Telemetry::new();
    assert_eq!(t.read_sysfs_int(&src, CAPACITY, 0, 0), Some(50));
    src.set(CAPACITY, "51");
    assert_eq!(t.read_sysfs_int(&src, CAPACITY, 0, 0), Some(51));
}

#[test]
fn cache_size_and_clearing() {
    let src = FakeSource::new().with_file(CAPACITY, "50").with_file(VOLTAGE, "1");
    let mut t = Telemetry::new();
    t.init_caches();
    assert_eq!(t.get_cache_size(), 0);
    t.read_sysfs_cached(&src, CAPACITY, 100, 0);
    t.read_sysfs_cached(&src, VOLTAGE, 100, 0);
    t.read_sysfs_cached(&src, CAPACITY, 0, 10);
    assert_eq!(t.get_cache_size(), 2);
    t.clear_value_cache();
    assert_eq!(t.get_cache_size(), 0);
    t.read_sysfs_cached(&src, CAPACITY, 100, 0);
    t.clear_caches();
    assert_eq!(t.get_cache_size(), 0);
}

#[test]
fn path_discovery_remembers_success_only() {
    let mut src = FakeSource::new();
    let mut t = Telemetry::new();
    let candidates = ["/a", "/b"];
    assert_eq!(t.discover_first_valid(&src, &candidates), None);
    src = src.with_dir("/b");
    assert_eq!(t.discover_first_valid(&src, &candidates), Some("/b".to_string()));
    src = src.with_dir("/a");
    assert_eq!(t.discover_first_valid(&src, &candidates), Some("/b".to_string()));
    t.clear_path_cache();
    assert_eq!(t.discover_first_valid(&src, &candidates), Some("/a".to_string()));
}

#[test]
fn read_stats_count_and_reset() {
    let mut t = Telemetry::new();
    t.track_read_success();
    t.track_read_success();
    t.track_read_failure();
    assert_eq!(t.get_read_stats(), (2, 1));
    t.reset_read_stats();
    assert_eq!(t.get_read_stats(), (0, 0));
    t.set_default_cache_ttl(50);
}

use rdm::monitor::{fetch_device_info, percent_from_nanos, random, DeviceMonitor, DeviceStats};

fn sample(dev: &str, v: u8, at: i64) -> DeviceStats {
    DeviceStats {
        device_id: dev.to_string(),
        cpu_usage: v,
        memory_usage: v,
        storage_usage: v,
        battery_level: v,
        last_update: at,
    }
}

#[test]
fn later_tick_replaces_earlier() {
    let mut m = DeviceMonitor::new();
    assert!(m.start(vec!["d1".to_string(), "d2".to_string()]));
    assert!(m.tick(sample("d1", 10, 100)));
    assert!(m.tick(sample("d1", 20, 101)));
    let snap = m.get_stats();
    assert_eq!(snap, vec![sample("d1", 20, 101)]);
}

#[test]
fn stale_sample_does_not_overwrite() {
    let mut m = DeviceMonitor::new();
    m.start(vec!["d1".to_string()]);
    m.tick(sample("d1", 20, 200));
    m.tick(sample("d1", 10, 150));
    assert_eq!(m.get_stats(), vec![sample("d1", 20, 200)]);
}

#[test]
fn entries_are_per_device() {
    let mut m = DeviceMonitor::new();
    m.start(vec!["d1".to_string(), "d2".to_string()]);
    m.tick(sample("d1", 1, 1));
    m.tick(sample("d2", 2, 1));
    m.tick(sample("d1", 3, 2));
    assert_eq!(m.get_stats(), vec![sample("d1", 3, 2), sample("d2", 2, 1)]);
}

#[test]
fn only_watched_devices_are_recorded() {
    let mut m = DeviceMonitor::new();
    assert!(!m.tick(sample("d1", 1, 1)));
    m.start(vec!["d1".to_string()]);
    assert!(!m.start(vec!["d9".to_string()]));
    assert!(!m.tick(sample("d9", 1, 1)));
    m.untrack(&"d1".to_string());
    assert!(!m.tick(sample("d1", 1, 1)));
    assert!(m.get_stats().is_empty());
    m.stop();
    assert!(!m.is_tracking(&"d1".to_string()));
}

#[test]
fn stop_keeps_table() {
    let mut m = DeviceMonitor::new();
    m.start(vec!["d1".to_string()]);
    m.tick(sample("d1", 5, 5));
    m.stop();
    assert!(!m.tick(sample("d1", 6, 6)));
    assert_eq!(m.get_stats(), vec![sample("d1", 5, 5)]);
}

#[test]
fn percentages_from_clock() {
    assert_eq!(percent_from_nanos(0), 0);
    assert_eq!(percent_from_nanos(9_999_999), 0);
    assert_eq!(percent_from_nanos(10_000_000), 1);
    assert_eq!(percent_from_nanos(999_999_999), 99);
    assert_eq!(percent_from_nanos(1_250_000_000), 25);
    for _ in 0..20 {
        assert!(random() < 100);
    }
}

#[test]
fn placeholder_sample_is_in_range() {
    let s = fetch_device_info("d1".to_string(), 77);
    assert_eq!(s.device_id, "d1");
    assert_eq!(s.last_update, 77);
    assert!(s.cpu_usage <= 100 && s.memory_usage <= 100);
    assert!(s.storage_usage <= 100 && s.battery_level <= 100);
}

#[test]
fn newly_registered_device_is_watched_once() {
    let mut m = DeviceMonitor::new();
    assert!(!m.watch("d1".to_string()));
    m.start(vec![]);
    assert!(m.watch("d1".to_string()));
    assert!(!m.watch("d1".to_string()));
    assert!(m.tick(sample("d1", 4, 4)));
    assert_eq!(m.get_stats(), vec![sample("d1", 4, 4)]);
}

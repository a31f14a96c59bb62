use coolercontrol_truenas_bridge::service::{
    describe_device, device_id, is_device_id, service_id, temp_id, version, TempCache, NANOS_PER_SECOND,
};
use coolercontrol_truenas_bridge::temps::TempMap;

const SEC: u128 = NANOS_PER_SECOND;

fn names(list: &[&str]) -> Vec<String> {
    list.iter().map(|n| n.to_string()).collect()
}

fn readings(cache: &TempCache<f64>) -> Vec<(String, f64)> {
    let m = cache.temperatures();
    (0..m.len()).map(|i| (m.key_at(i).clone(), *m.value_at(i))).collect()
}

#[test]
fn sanitizes_temp_ids() {
    assert_eq!(temp_id("sda"), "sda");
    assert_eq!(temp_id("disk bay/1"), "disk_bay_1");
}

#[test]
fn temp_id_edges() {
    assert_eq!(temp_id(""), "disk");
    assert_eq!(temp_id("._-"), "disk");
    assert_eq!(temp_id("диск"), "disk");
    assert_eq!(temp_id("-nvme0n1."), "nvme0n1");
    assert_eq!(temp_id(" sda "), "sda");
    assert_eq!(temp_id("a.b-c_d"), "a.b-c_d");
    let id = temp_id("/dev/disk by-id/ata#1/");
    assert_eq!(id, "dev_disk_by-id_ata_1");
    assert_eq!(temp_id(&id), id);
}

#[test]
fn map_orders_and_replaces() {
    let mut m: TempMap<u32> = TempMap::new();
    assert!(m.is_empty());
    m.insert("sdb".to_string(), 2);
    m.insert("sda".to_string(), 1);
    m.insert("nvme0".to_string(), 3);
    m.insert("sdb".to_string(), 20);
    assert_eq!(m.len(), 3);
    assert_eq!(
        m.into_entries(),
        vec![("nvme0".to_string(), 3), ("sda".to_string(), 1), ("sdb".to_string(), 20)]
    );
    let mut m: TempMap<u32> = TempMap::new();
    m.insert("b".to_string(), 1);
    m.insert("ab".to_string(), 1);
    m.insert("a".to_string(), 1);
    m.insert("B".to_string(), 1);
    m.set_all(9);
    assert_eq!(
        m.into_entries(),
        vec![("B".to_string(), 9), ("a".to_string(), 9), ("ab".to_string(), 9), ("b".to_string(), 9)]
    );
}

#[test]
fn new_cache_holds_configured_disks_at_failsafe() {
    let cache = TempCache::new(&names(&["sdb", "sda", "sdb"]), 55.0);
    assert_eq!(readings(&cache), vec![("sda".to_string(), 55.0), ("sdb".to_string(), 55.0)]);
    assert!(!cache.health_warning());
    assert!(cache.should_refresh(0, 300));
}

#[test]
fn polls_once_per_interval() {
    let mut cache: TempCache<f64> = TempCache::new(&vec![], 55.0);
    assert!(cache.should_refresh(5 * SEC, 300));
    cache.record_failure("down".to_string(), 10 * SEC, 900, 55.0);
    assert!(!cache.should_refresh(10 * SEC, 300));
    assert!(!cache.should_refresh(310 * SEC - 1, 300));
    assert!(cache.should_refresh(310 * SEC, 300));
    assert!(!cache.should_refresh(5 * SEC, 300));
}

#[test]
fn failsafe_when_nothing_known() {
    let mut cache: TempCache<f64> = TempCache::new(&vec![], 55.0);
    cache.record_failure("connect failed".to_string(), SEC, 900, 55.0);
    assert_eq!(readings(&cache), vec![("failsafe".to_string(), 55.0)]);
    assert!(cache.health_warning());
    let infos = cache.temp_infos();
    assert_eq!(infos, vec![("failsafe".to_string(), "failsafe".to_string(), 1)]);
}

#[test]
fn keeps_fresh_readings_then_falls_back() {
    let mut cache: TempCache<f64> = TempCache::new(&vec![], 55.0);
    let mut fetched = TempMap::new();
    fetched.insert("sda".to_string(), 35.0);
    fetched.insert("disk bay/1".to_string(), 41.0);
    cache.record_success(fetched, 100 * SEC);
    assert!(!cache.health_warning());
    cache.record_failure("timeout".to_string(), 400 * SEC, 900, 55.0);
    assert!(cache.health_warning());
    assert_eq!(readings(&cache), vec![("disk bay/1".to_string(), 41.0), ("sda".to_string(), 35.0)]);
    cache.record_failure("timeout".to_string(), 1000 * SEC, 900, 55.0);
    assert_eq!(readings(&cache), vec![("disk bay/1".to_string(), 41.0), ("sda".to_string(), 35.0)]);
    cache.record_failure("timeout".to_string(), 1000 * SEC + 1, 900, 55.0);
    assert_eq!(readings(&cache), vec![("disk bay/1".to_string(), 55.0), ("sda".to_string(), 55.0)]);
    let mut fetched = TempMap::new();
    fetched.insert("sdc".to_string(), 30.0);
    cache.record_success(fetched, 1200 * SEC);
    assert!(!cache.health_warning());
    assert_eq!(readings(&cache), vec![("sdc".to_string(), 30.0)]);
}

#[test]
fn device_sources_and_status() {
    let mut cache: TempCache<f64> = TempCache::new(&vec![], 55.0);
    let mut fetched = TempMap::new();
    fetched.insert("sdb".to_string(), 40.0);
    fetched.insert("disk bay/1".to_string(), 41.0);
    cache.record_success(fetched, SEC);
    assert_eq!(
        cache.temp_infos(),
        vec![
            ("disk_bay_1".to_string(), "disk bay/1".to_string(), 1),
            ("sdb".to_string(), "sdb".to_string(), 2),
        ]
    );
    assert_eq!(cache.status_entries(), vec![("disk_bay_1".to_string(), 41.0), ("sdb".to_string(), 40.0)]);
}

#[test]
fn device_description() {
    let d = describe_device("truenas.local");
    assert_eq!(d.id, "truenas");
    assert_eq!(d.name, "TrueNAS");
    assert_eq!(d.uid_info, Some("truenas.local".to_string()));
    assert_eq!(d.model, Some("TrueNAS Disk Temperatures".to_string()));
    assert_eq!(d.driver_name, Some("coolercontrol-truenas-bridge".to_string()));
    assert_eq!(d.driver_version, Some("0.1.2".to_string()));
    assert_eq!(d.locations, vec!["truenas.local".to_string()]);
    assert_eq!(device_id(), "truenas");
    assert!(is_device_id("truenas"));
    assert!(!is_device_id("TrueNAS"));
    assert_eq!(service_id(), "coolercontrol-truenas-bridge");
    assert_eq!(version(), "0.1.2");
}

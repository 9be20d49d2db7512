use lyys_panel::embed::{asset_path, cache_control};
use lyys_panel::monitor::{disk_reading_fresh, net_delta, prune_cutoff, sample_tick, PRUNE_EVERY, RETENTION_SECS};
use lyys_panel::table::Table;

fn key(s: &str) -> Vec<char> {
    s.chars().collect()
}

#[test]
fn table_as_a_map() {
    let mut t: Table<u32> = Table::new();
    assert_eq!(t.len(), 0);
    t.insert(&key("a"), 1);
    t.insert(&key("b"), 2);
    t.insert(&key("a"), 3);
    assert_eq!(t.len(), 2);
    assert_eq!(t.get(&key("a")), Some(3));
    assert_eq!(t.get(&key("c")), None);
    t.remove(&key("a"));
    assert_eq!(t.get(&key("a")), None);
    assert_eq!(t.len(), 1);
    t.clear();
    assert_eq!(t.len(), 0);
}

#[test]
fn network_rates_between_samples() {
    let mut last: Table<(u64, u64)> = Table::new();
    last.insert(&key("eth0"), (1000, 500));
    last.insert(&key("wlan0"), (50, 50));
    let cur = vec![("eth0".to_string(), 1600, 700), ("lo".to_string(), 30, 40), ("wlan0".to_string(), 10, 60)];
    let (rx, tx, next) = net_delta(&last, &cur).unwrap();
    // eth0: 600 / 200; lo is new: 30 / 40; wlan0 went back: 0 / 10
    assert_eq!((rx, tx), (630, 250));
    assert_eq!(next.len(), 3);
    assert_eq!(next.get(&key("eth0")), Some((1600, 700)));
    assert_eq!(next.get(&key("wlan0")), Some((10, 60)));
    let first = net_delta(&Table::new(), &vec![]).unwrap();
    assert_eq!((first.0, first.1, first.2.len()), (0, 0, 0));
}

#[test]
fn network_totals_that_overflow() {
    let cur = vec![("a".to_string(), u64::MAX, 0), ("b".to_string(), 1, 0)];
    assert!(net_delta(&Table::new(), &cur).is_none());
}

#[test]
fn sampling_schedule() {
    assert_eq!(sample_tick(0), (1, false));
    assert_eq!(sample_tick(PRUNE_EVERY - 2), (PRUNE_EVERY - 1, false));
    assert_eq!(sample_tick(PRUNE_EVERY - 1), (0, true));
    assert_eq!(prune_cutoff(1_700_000_000), 1_700_000_000 - RETENTION_SECS);
    assert_eq!(RETENTION_SECS, 7 * 24 * 3600);
    assert!(disk_reading_fresh(29));
    assert!(!disk_reading_fresh(30));
}

#[test]
fn embedded_assets() {
    assert_eq!(asset_path("/index.html"), "index.html");
    assert_eq!(asset_path("//assets/app.js"), "assets/app.js");
    assert_eq!(asset_path("/"), "");
    assert_eq!(cache_control("assets/app.3f2a.js"), "public, max-age=31536000, immutable");
    assert_eq!(cache_control("index.html"), "no-cache");
}

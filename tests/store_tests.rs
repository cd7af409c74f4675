use filecopies::analytics::{safe_verdict, wasted_bytes};
use filecopies::model::{DetectedDisk, FileLocation};
use filecopies::store::ContentStore;

fn disk(id: &str, mount: &str) -> DetectedDisk {
    DetectedDisk {
        id: id.to_string(),
        label: id.to_string(),
        mount_point: mount.to_string(),
        total_bytes: 1000,
        available_bytes: 500,
        is_removable: false,
    }
}

fn put(store: &mut ContentStore, hash: &str, device: &str, path: &str, size: i64) {
    store.upsert_file(hash, size, path, "txt", "2024-01-01 00:00:00");
    store.upsert_location(hash, device, path, path, size, &None, "full", "2024-01-01 00:00:00");
}

#[test]
fn upsert_location_twice_keeps_one_row() {
    let mut s = ContentStore::new();
    let m = Some("2024-01-01 10:00:00".to_string());
    s.upsert_location("h1", "dev", "a/b.txt", "b.txt", 10, &m, "full", "2024-01-01 00:00:00");
    s.upsert_location("h1", "dev", "a/b.txt", "b.txt", 10, &m, "full", "2024-01-02 00:00:00");
    assert_eq!(s.locations.len(), 1);
    let l: &FileLocation = &s.locations[0];
    assert_eq!(l.blake3_hash, "h1");
    assert_eq!(l.file_size, 10);
    assert_eq!(l.modified_at, m);
    assert_eq!(l.last_verified, "2024-01-02 00:00:00");
    assert_eq!(l.id, 1);
}

#[test]
fn upsert_location_overwrites_metadata() {
    let mut s = ContentStore::new();
    s.upsert_location("h1", "dev", "x", "x", 10, &None, "quick", "t1");
    s.upsert_location("h2", "dev", "x", "x", 20, &None, "full", "t2");
    s.upsert_location("h2", "dev", "y", "y", 20, &None, "full", "t2");
    assert_eq!(s.locations.len(), 2);
    assert_eq!(s.locations[0].blake3_hash, "h2");
    assert_eq!(s.locations[0].file_size, 20);
    assert_eq!(s.locations[0].scan_mode, "full");
    assert_eq!(s.locations[1].id, 2);
}

#[test]
fn upsert_file_keeps_first_name() {
    let mut s = ContentStore::new();
    s.upsert_file("h", 5, "first.txt", "txt", "t1");
    s.upsert_file("h", 5, "second.txt", "txt", "t2");
    assert_eq!(s.files.len(), 1);
    assert_eq!(s.files[0].representative_name, "first.txt");
    assert_eq!(s.files[0].created_at, "t1");
}

#[test]
fn reconcile_removes_unseen_and_collects_orphans() {
    let mut s = ContentStore::new();
    put(&mut s, "ha", "dev", "dir/a", 1);
    put(&mut s, "hb", "dev", "dir/b", 2);
    let seen = vec!["dir/a".to_string()];
    let removed = s.remove_stale_locations("dev", "dir", &seen);
    assert_eq!(removed, 1);
    assert_eq!(s.locations.len(), 1);
    assert_eq!(s.locations[0].file_path, "dir/a");
    let gone = s.cleanup_orphaned_files();
    assert_eq!(gone, 1);
    assert_eq!(s.files.len(), 1);
    assert_eq!(s.files[0].blake3_hash, "ha");
}

#[test]
fn reconcile_keeps_record_still_referenced() {
    let mut s = ContentStore::new();
    put(&mut s, "ha", "dev", "dir/a", 1);
    put(&mut s, "hb", "dev", "dir/b", 2);
    put(&mut s, "hb", "other", "copy/b", 2);
    let seen = vec!["dir/a".to_string()];
    assert_eq!(s.remove_stale_locations("dev", "dir", &seen), 1);
    assert_eq!(s.cleanup_orphaned_files(), 0);
    assert_eq!(s.files.len(), 2);
    assert_eq!(s.locations.len(), 2);
}

#[test]
fn reconcile_with_nothing_seen_clears_prefix_only() {
    let mut s = ContentStore::new();
    put(&mut s, "h1", "dev", "dir/a", 1);
    put(&mut s, "h2", "dev", "dir2/b", 1);
    put(&mut s, "h3", "dev", "other/c", 1);
    put(&mut s, "h4", "dev2", "dir/a", 1);
    let removed = s.remove_stale_locations("dev", "dir", &Vec::new());
    assert_eq!(removed, 2);
    assert_eq!(s.locations.len(), 2);
    assert_eq!(s.locations[0].file_path, "other/c");
    assert_eq!(s.locations[1].device_id, "dev2");
}

#[test]
fn reconcile_prefix_is_literal() {
    let mut s = ContentStore::new();
    put(&mut s, "h1", "dev", "a_b/x", 1);
    put(&mut s, "h2", "dev", "aXb/x", 1);
    put(&mut s, "h3", "dev", "100%/y", 1);
    assert_eq!(s.remove_stale_locations("dev", "a_b", &Vec::new()), 1);
    assert_eq!(s.remove_stale_locations("dev", "100%", &Vec::new()), 1);
    assert_eq!(s.locations.len(), 1);
    assert_eq!(s.locations[0].file_path, "aXb/x");
}

#[test]
fn devices_upsert_and_tier() {
    let mut s = ContentStore::new();
    s.upsert_device(&disk("u1", "/Volumes/A"), "t1");
    s.set_device_type("u1", "cold");
    s.upsert_device(&disk("u1", "/Volumes/B"), "t2");
    assert_eq!(s.devices.len(), 1);
    assert_eq!(s.devices[0].device_type, "cold");
    assert_eq!(s.devices[0].mount_point, "/Volumes/B");
    assert_eq!(s.devices[0].first_seen, "t1");
    assert_eq!(s.devices[0].last_seen, "t2");
    assert!(s.get_device_by_mount("/Volumes/B").is_some());
    assert!(s.get_device_by_mount("/Volumes/A").is_none());
    assert_eq!(s.get_all_devices().len(), 1);
    s.set_device_type("nobody", "hot");
    assert_eq!(s.devices[0].device_type, "cold");
}

#[test]
fn locations_by_device_and_hash() {
    let mut s = ContentStore::new();
    put(&mut s, "h1", "d1", "a", 1);
    put(&mut s, "h1", "d2", "a", 1);
    put(&mut s, "h2", "d1", "b", 1);
    assert_eq!(s.get_files_on_device("d1").len(), 2);
    assert_eq!(s.get_file_locations("h1").len(), 2);
    assert!(s.get_existing_location("d2", "a").is_some());
    assert!(s.get_existing_location("d2", "b").is_none());
}

#[test]
fn waste_of_three_copies() {
    let mut s = ContentStore::new();
    put(&mut s, "h", "d1", "a", 1000);
    put(&mut s, "h", "d2", "a", 1000);
    put(&mut s, "h", "d3", "a", 1000);
    put(&mut s, "single", "d1", "z", 5);
    let w = s.get_waste_candidates(2);
    assert_eq!(w.len(), 1);
    assert_eq!(w[0].blake3_hash, "h");
    assert_eq!(w[0].total_copies, 3);
    assert_eq!(w[0].wasted_bytes, 2000);
    assert_eq!(s.get_waste_candidates(3).len(), 0);
    assert_eq!(wasted_bytes(1000, 3), 2000);
}

#[test]
fn waste_sorted_largest_first() {
    let mut s = ContentStore::new();
    put(&mut s, "small", "d1", "s", 10);
    put(&mut s, "small", "d2", "s", 10);
    put(&mut s, "big", "d1", "b", 500);
    put(&mut s, "big", "d2", "b", 500);
    let w = s.get_waste_candidates(1);
    assert_eq!(w.len(), 2);
    assert_eq!(w[0].blake3_hash, "big");
    assert_eq!(w[0].wasted_bytes, 500);
    assert_eq!(w[1].wasted_bytes, 10);
}

#[test]
fn wasted_bytes_clamps() {
    assert_eq!(wasted_bytes(i64::MAX, 3), i64::MAX);
    assert_eq!(wasted_bytes(7, 1), 0);
}

#[test]
fn safety_predicate_cases() {
    assert!(!safe_verdict(1, 0));
    assert!(safe_verdict(2, 1));
    assert!(safe_verdict(2, 2));
    assert!(!safe_verdict(1, 1));
}

fn tiered_store() -> ContentStore {
    let mut s = ContentStore::new();
    s.upsert_device(&disk("hot1", "/h"), "t");
    s.upsert_device(&disk("cold1", "/c"), "t");
    s.upsert_device(&disk("cold2", "/c2"), "t");
    s.set_device_type("hot1", "hot");
    s.set_device_type("cold1", "cold");
    s.set_device_type("cold2", "cold");
    s
}

#[test]
fn file_safety_by_tier() {
    let mut s = tiered_store();
    put(&mut s, "only_hot", "hot1", "a", 100);
    put(&mut s, "backed", "hot1", "b", 200);
    put(&mut s, "backed", "cold1", "b", 200);
    put(&mut s, "two_cold", "cold1", "c", 300);
    put(&mut s, "two_cold", "cold2", "c", 300);
    put(&mut s, "one_cold", "cold1", "d", 400);
    let a = s.get_file_safety("only_hot").unwrap();
    assert_eq!((a.total_copies, a.hot_copies, a.cold_copies, a.is_safe), (1, 1, 0, false));
    let b = s.get_file_safety("backed").unwrap();
    assert_eq!((b.total_copies, b.hot_copies, b.cold_copies, b.is_safe), (2, 1, 1, true));
    assert_eq!(b.locations.len(), 2);
    let c = s.get_file_safety("two_cold").unwrap();
    assert_eq!((c.total_copies, c.hot_copies, c.cold_copies, c.is_safe), (2, 0, 2, true));
    let d = s.get_file_safety("one_cold").unwrap();
    assert_eq!((d.total_copies, d.cold_copies, d.is_safe), (1, 1, false));
    assert!(s.get_file_safety("missing").is_none());
    let u = s.get_unsafe_files();
    assert_eq!(u.len(), 2);
    assert_eq!(u[0].blake3_hash, "one_cold");
    assert_eq!(u[1].blake3_hash, "only_hot");
    assert!(!u[0].is_safe && !u[1].is_safe);
}

#[test]
fn dashboard_totals() {
    let mut s = tiered_store();
    put(&mut s, "x", "hot1", "a", 100);
    put(&mut s, "x", "cold1", "a", 100);
    put(&mut s, "y", "hot1", "b", 50);
    let d = s.get_dashboard_stats();
    assert_eq!(d.total_files, 2);
    assert_eq!(d.total_locations, 3);
    assert_eq!(d.total_devices, 3);
    assert_eq!(d.total_size_bytes, 150);
    assert_eq!(d.unsafe_files, 1);
}

#[test]
fn location_on_unknown_device_is_no_copy() {
    let mut s = tiered_store();
    put(&mut s, "z", "ghost", "a", 1);
    assert!(s.get_file_safety("z").is_none());
    assert_eq!(s.get_unsafe_files().len(), 0);
}

#[test]
fn devices_listed_by_last_seen_descending() {
    let mut s = ContentStore::new();
    s.upsert_device(&disk("a", "/a"), "2024-01-01 00:00:00");
    s.upsert_device(&disk("b", "/b"), "2024-03-01 00:00:00");
    s.upsert_device(&disk("c", "/c"), "2024-02-01 00:00:00");
    let ids: Vec<String> = s.get_all_devices().into_iter().map(|d| d.id).collect();
    assert_eq!(ids, vec!["b".to_string(), "c".to_string(), "a".to_string()]);
}

#[test]
fn device_locations_listed_by_path() {
    let mut s = ContentStore::new();
    put(&mut s, "h1", "d", "b/z", 1);
    put(&mut s, "h2", "d", "a/y", 1);
    put(&mut s, "h3", "x", "a/a", 1);
    put(&mut s, "h4", "d", "a", 1);
    let paths: Vec<String> = s.get_files_on_device("d").into_iter().map(|l| l.file_path).collect();
    assert_eq!(paths, vec!["a".to_string(), "a/y".to_string(), "b/z".to_string()]);
}

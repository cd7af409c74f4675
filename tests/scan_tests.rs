use filecopies::model::{DetectedDisk, ScanEvent};
use filecopies::scanner::{FileMeta, ScanStep, Scanner};
use filecopies::store::ContentStore;

fn devices() -> Vec<DetectedDisk> {
    vec![DetectedDisk {
        id: "vol".to_string(),
        label: "Vol".to_string(),
        mount_point: "/Volumes/Vol".to_string(),
        total_bytes: 0,
        available_bytes: 0,
        is_removable: false,
    }]
}

/// Runs a scan over `files`, with `meta` giving each file's size and time,
/// hashes named after the path, and cancellation from file `cancel_at` on.
fn run(
    store: &mut ContentStore,
    mode: &str,
    files: Vec<String>,
    meta: &dyn Fn(&str) -> Result<FileMeta, String>,
    cancel_at: Option<usize>,
    now: &str,
) -> Vec<ScanEvent> {
    let mut scanner = Scanner::new(&devices(), "/Volumes/Vol/dir", mode).ok().unwrap();
    let mut events = vec![scanner.begin(files)];
    let mut taken: usize = 0;
    let mut step = ScanStep::NextFile;
    loop {
        let (ev, next) = match step {
            ScanStep::NextFile => {
                let cancelled = cancel_at.map_or(false, |c| taken >= c);
                taken += 1;
                scanner.next_file(store, cancelled)
            }
            ScanStep::ReadMetadata { path } => scanner.metadata_read(store, meta(&path), now),
            ScanStep::Hash { path } => scanner.hash_done(store, Ok(format!("hash:{}", path)), now),
            ScanStep::Done => break,
        };
        events.extend(ev);
        step = next;
    }
    events
}

fn small(_: &str) -> Result<FileMeta, String> {
    Ok(FileMeta { size: 10, modified_secs: Some(0) })
}

fn names(n: usize) -> Vec<String> {
    (1..=n).map(|i| format!("/Volumes/Vol/dir/f{}.TXT", i)).collect()
}

#[test]
fn full_scan_of_120_files() {
    let mut store = ContentStore::new();
    let events = run(&mut store, "full", names(120), &small, None, "t1");
    assert!(matches!(events[0], ScanEvent::Started { total_files: 120 }));
    let progress: Vec<u64> = events
        .iter()
        .filter_map(|e| match e {
            ScanEvent::Progress { scanned, total } => {
                assert_eq!(*total, 120);
                Some(*scanned)
            }
            _ => None,
        })
        .collect();
    assert_eq!(progress, vec![50, 100, 120]);
    let hashed = events.iter().filter(|e| matches!(e, ScanEvent::FileHashed { .. })).count();
    assert_eq!(hashed, 120);
    assert!(matches!(
        events.last().unwrap(),
        ScanEvent::Finished { scanned: 120, hashed: 120, added: 120, removed: 0 }
    ));
    assert_eq!(store.locations.len(), 120);
    assert_eq!(store.files.len(), 120);
    assert_eq!(store.locations[0].file_path, "dir/f1.TXT");
    assert_eq!(store.files[0].extension, "txt");
    assert_eq!(store.locations[0].modified_at, Some("1970-01-01 00:00:00".to_string()));
}

#[test]
fn quick_rescan_skips_unchanged() {
    let mut store = ContentStore::new();
    run(&mut store, "full", names(2), &small, None, "t1");
    let events = run(&mut store, "quick", names(2), &small, None, "t2");
    assert!(!events.iter().any(|e| matches!(e, ScanEvent::FileHashed { .. })));
    assert!(matches!(events.last().unwrap(), ScanEvent::Finished { scanned: 2, hashed: 0, added: 0, removed: 0 }));
    assert_eq!(store.locations[0].last_verified, "t1");
}

#[test]
fn quick_rescan_hashes_changed_size() {
    let mut store = ContentStore::new();
    run(&mut store, "full", names(1), &small, None, "t1");
    let bigger = |_: &str| Ok(FileMeta { size: 11, modified_secs: Some(0) });
    let events = run(&mut store, "quick", names(1), &bigger, None, "t2");
    assert!(matches!(events.last().unwrap(), ScanEvent::Finished { scanned: 1, hashed: 1, added: 0, removed: 0 }));
    assert_eq!(store.locations[0].last_verified, "t2");
    assert_eq!(store.locations[0].file_size, 11);
}

#[test]
fn threshold_two_gib_is_hashed() {
    let mut store = ContentStore::new();
    let at = |_: &str| Ok(FileMeta { size: 2_147_483_648, modified_secs: Some(0) });
    let events = run(&mut store, "quick", names(1), &at, None, "t");
    assert!(matches!(events.last().unwrap(), ScanEvent::Finished { hashed: 1, added: 1, .. }));
    assert_eq!(store.locations[0].scan_mode, "quick");
}

#[test]
fn one_byte_over_threshold_is_deferred() {
    let mut store = ContentStore::new();
    let over = |_: &str| Ok(FileMeta { size: 2_147_483_649, modified_secs: Some(0) });
    let events = run(&mut store, "quick", names(1), &over, None, "t");
    assert!(!events.iter().any(|e| matches!(e, ScanEvent::FileHashed { .. })));
    assert!(matches!(events.last().unwrap(), ScanEvent::Finished { hashed: 0, added: 1, .. }));
    assert_eq!(store.locations[0].blake3_hash, "deferred:2147483649:1970-01-01 00:00:00");
    assert_eq!(store.locations[0].scan_mode, "deferred");
    assert_eq!(store.files[0].blake3_hash, "deferred:2147483649:1970-01-01 00:00:00");
}

#[test]
fn deferred_without_time() {
    let mut store = ContentStore::new();
    let over = |_: &str| Ok(FileMeta { size: 3_000_000_000, modified_secs: None });
    run(&mut store, "quick", names(1), &over, None, "t");
    assert_eq!(store.locations[0].blake3_hash, "deferred:3000000000:");
}

#[test]
fn full_mode_hashes_large_files() {
    let mut store = ContentStore::new();
    let over = |_: &str| Ok(FileMeta { size: 3_000_000_000, modified_secs: None });
    let events = run(&mut store, "full", names(1), &over, None, "t");
    assert!(matches!(events.last().unwrap(), ScanEvent::Finished { hashed: 1, .. }));
}

#[test]
fn cancellation_keeps_earlier_work() {
    let mut store = ContentStore::new();
    let events = run(&mut store, "full", names(5), &small, Some(2), "t");
    assert!(matches!(events.last().unwrap(), ScanEvent::Cancelled));
    assert!(!events.iter().any(|e| matches!(e, ScanEvent::Finished { .. })));
    assert_eq!(events.iter().filter(|e| matches!(e, ScanEvent::FileHashed { .. })).count(), 2);
    assert_eq!(store.locations.len(), 2);
}

#[test]
fn rescan_after_delete_reconciles() {
    let mut store = ContentStore::new();
    run(&mut store, "full", names(2), &small, None, "t1");
    let events = run(&mut store, "full", names(1), &small, None, "t2");
    assert!(matches!(events.last().unwrap(), ScanEvent::Finished { scanned: 1, removed: 1, .. }));
    assert_eq!(store.locations.len(), 1);
    assert_eq!(store.locations[0].file_path, "dir/f1.TXT");
    assert_eq!(store.files.len(), 1);
}

#[test]
fn metadata_failure_is_reported_and_skipped() {
    let mut store = ContentStore::new();
    let fail = |_: &str| Err("denied".to_string());
    let events = run(&mut store, "full", names(1), &fail, None, "t");
    assert!(events.iter().any(|e| matches!(e, ScanEvent::Error { message } if message == "/Volumes/Vol/dir/f1.TXT: denied")));
    assert!(matches!(events.last().unwrap(), ScanEvent::Finished { scanned: 1, hashed: 0, added: 0, removed: 0 }));
    assert_eq!(store.locations.len(), 0);
}

#[test]
fn hash_failure_is_reported_and_skipped() {
    let mut store = ContentStore::new();
    let mut scanner = Scanner::new(&devices(), "/Volumes/Vol", "full").ok().unwrap();
    scanner.begin(names(1));
    let (_, step) = scanner.next_file(&mut store, false);
    assert!(matches!(step, ScanStep::ReadMetadata { .. }));
    let (_, step) = scanner.metadata_read(&mut store, small("x"), "t");
    assert!(matches!(step, ScanStep::Hash { .. }));
    let (ev, step) = scanner.hash_done(&mut store, Err("unreadable".to_string()), "t");
    assert!(matches!(step, ScanStep::NextFile));
    assert!(matches!(&ev[0], ScanEvent::Error { message } if message == "/Volumes/Vol/dir/f1.TXT: unreadable"));
    let (ev, _) = scanner.next_file(&mut store, false);
    assert!(matches!(ev[0], ScanEvent::Finished { scanned: 1, hashed: 0, added: 0, removed: 0 }));
    assert_eq!(store.locations.len(), 0);
}

#[test]
fn unknown_device_fails_the_scan() {
    let r = Scanner::new(&devices(), "/elsewhere", "full");
    match r {
        Err(e) => assert_eq!(e.message(), "No device found for path: /elsewhere"),
        Ok(_) => panic!("expected an error"),
    }
}

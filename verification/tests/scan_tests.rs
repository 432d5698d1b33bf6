use papilio_core::catalog::{Catalog, LyricsSource};
use papilio_core::error::AppError;
use papilio_core::lock::StructuralLock;
use papilio_core::scan::{begin_scan, effective_limit, ingest_file, run_scan, scan_library, should_persist_progress, FileRecord};
use papilio_core::status::ScanStatus;

fn record(path: &str, artist: &str, album: &str, title: &str) -> FileRecord {
    FileRecord {
        path: path.to_string(),
        title: title.to_string(),
        artist: artist.to_string(),
        album: album.to_string(),
        year: Some(2020),
        duration: 180,
        track_number: Some(1),
        bitrate: Some(320),
        format: "mp3".to_string(),
        size: 999,
        lyrics: None,
        lyrics_source: LyricsSource::Absent,
    }
}

#[test]
fn test_scan_lock() {
    let mut lock = StructuralLock::new();
    let mut status = ScanStatus::new();
    assert!(!lock.is_locked());
    // take the lock, as a running structural operation would
    assert!(lock.try_acquire());
    assert!(lock.is_locked());
    // a second structural operation must fail immediately
    let result = begin_scan(&mut lock, &mut status, true, true, 5);
    assert!(matches!(result, Err(AppError::BadRequest(_))));
    assert!(!status.is_scanning);
    lock.release();
    assert!(!lock.is_locked());
    // now it can start
    let result = begin_scan(&mut lock, &mut status, true, true, 5);
    assert!(result.is_ok());
    assert!(status.is_scanning);
    assert_eq!(status.total_count, 5);
    assert_eq!(status.current_count, 0);
}

#[test]
fn whole_scan_respects_the_lock_and_releases_it() {
    let mut lock = StructuralLock::new();
    let mut status = ScanStatus::new();
    let mut catalog = Catalog::new();
    let files = vec![Some(record("m/a.mp3", "A", "X", "One"))];
    let present = vec!["m/a.mp3".to_string()];
    // refused outright while another structural operation holds the lock
    assert!(lock.try_acquire());
    let refused = scan_library(&mut lock, &mut status, &mut catalog, true, true, &files, &present, 8, 1);
    assert!(matches!(refused, Err(AppError::BadRequest(_))));
    assert!(catalog.tracks.is_empty());
    lock.release();
    // then the whole pipeline runs and gives the lock back
    let done = scan_library(&mut lock, &mut status, &mut catalog, true, true, &files, &present, 8, 2);
    assert!(done.is_ok());
    assert!(!lock.is_locked());
    assert_eq!(catalog.tracks.len(), 1);
    assert!(!status.is_scanning);
    assert_eq!(status.last_scan_at, Some(2));
    // the persisted total is the number of enumerated audio files
    assert_eq!(status.total_count, files.len() as u32);
}

#[test]
fn invalid_root_is_rejected_and_lock_freed() {
    let mut lock = StructuralLock::new();
    let mut status = ScanStatus::new();
    let result = begin_scan(&mut lock, &mut status, false, false, 0);
    assert!(matches!(result, Err(AppError::BadRequest(_))));
    assert!(!lock.is_locked());
    let result = begin_scan(&mut lock, &mut status, true, false, 0);
    assert!(matches!(result, Err(AppError::BadRequest(_))));
    assert!(!lock.is_locked());
}

#[test]
fn scanning_unchanged_files_twice_is_idempotent() {
    let files: Vec<Option<FileRecord>> = vec![
        Some(record("m/A/X/1.mp3", "A", "X", "One")),
        Some(record("m/A/X/2.mp3", "A", "X", "Two")),
        Some(record("m/B/Y/3.mp3", "B", "Y", "Three")),
    ];
    let present: Vec<String> =
        vec!["m/A/X/1.mp3".to_string(), "m/A/X/2.mp3".to_string(), "m/B/Y/3.mp3".to_string()];
    let mut catalog = Catalog::new();
    let mut status = ScanStatus::new();
    let r1 = run_scan(&mut catalog, &mut status, &files, &present, 8, 100);
    let snapshot = catalog.clone();
    let r2 = run_scan(&mut catalog, &mut status, &files, &present, 8, 200);
    assert_eq!(catalog, snapshot);
    assert_eq!(r1.successes, 3);
    assert_eq!(r2.successes, 3);
    assert_eq!(catalog.tracks.len(), 3);
    assert_eq!(catalog.albums.len(), 2);
    assert_eq!(catalog.artists.len(), 2);
}

#[test]
fn in_flight_stays_under_the_limit() {
    let files: Vec<Option<FileRecord>> = (0..40)
        .map(|i| Some(record(&format!("m/t{}.mp3", i), "A", "X", "T")))
        .collect();
    let present: Vec<String> = (0..40).map(|i| format!("m/t{}.mp3", i)).collect();
    let mut catalog = Catalog::new();
    let mut status = ScanStatus::new();
    let report = run_scan(&mut catalog, &mut status, &files, &present, 3, 1);
    assert!(report.max_in_flight <= 3);
    let mut catalog2 = Catalog::new();
    let report2 = run_scan(&mut catalog2, &mut status, &files, &present, 25, 1);
    // and never more than the dispatch window
    assert!(report2.max_in_flight <= 10);
}

#[test]
fn circuit_breaker_stops_launching_after_ten_failures() {
    // failures interleaved with valid files: after the tenth counted
    // failure no further unit is launched, in-flight work drains, and
    // the sweep and the finalization still run
    let mut files: Vec<Option<FileRecord>> = Vec::new();
    for i in 0..40 {
        if i % 2 == 0 {
            files.push(None);
        } else {
            files.push(Some(record(&format!("m/t{}.mp3", i), "A", "X", "T")));
        }
    }
    let present: Vec<String> = (0..40).map(|i| format!("m/t{}.mp3", i)).collect();
    let mut catalog = Catalog::new();
    let mut status = ScanStatus::new();
    status.total_count = files.len() as u32;
    let report = run_scan(&mut catalog, &mut status, &files, &present, 2, 7);
    // the run never touches the persisted total
    assert_eq!(status.total_count, files.len() as u32);
    assert_eq!(report.failures, 10);
    assert!(report.launched < files.len());
    assert!(report.sweep_ran);
    assert!(report.finalized);
    // the status row was finalized: flag cleared, time recorded, count
    // reconciled against the real row count
    assert!(!status.is_scanning);
    assert_eq!(status.last_scan_at, Some(7));
    assert_eq!(status.current_count as usize, catalog.tracks.len());
}

#[test]
fn empty_scan_still_finalizes() {
    let files: Vec<Option<FileRecord>> = Vec::new();
    let present: Vec<String> = Vec::new();
    let mut catalog = Catalog::new();
    let mut status = ScanStatus::new();
    let report = run_scan(&mut catalog, &mut status, &files, &present, 8, 42);
    assert_eq!(report.launched, 0);
    assert!(report.sweep_ran);
    assert!(report.finalized);
    assert_eq!(status.last_scan_at, Some(42));
}

#[test]
fn deleted_file_row_is_gone_after_next_scan_and_does_not_reappear() {
    let both: Vec<Option<FileRecord>> = vec![
        Some(record("m/a.mp3", "A", "X", "One")),
        Some(record("m/b.mp3", "A", "X", "Two")),
    ];
    let mut catalog = Catalog::new();
    let mut status = ScanStatus::new();
    let present_both = vec!["m/a.mp3".to_string(), "m/b.mp3".to_string()];
    run_scan(&mut catalog, &mut status, &both, &present_both, 8, 1);
    assert_eq!(catalog.tracks.len(), 2);
    // the file behind b.mp3 is deleted between scans
    let only_a: Vec<Option<FileRecord>> = vec![Some(record("m/a.mp3", "A", "X", "One"))];
    let present_a = vec!["m/a.mp3".to_string()];
    run_scan(&mut catalog, &mut status, &only_a, &present_a, 8, 2);
    assert_eq!(catalog.tracks.len(), 1);
    assert!(catalog.track_by_path(&"m/b.mp3".to_string()).is_none());
    // a further scan does not bring it back
    run_scan(&mut catalog, &mut status, &only_a, &present_a, 8, 3);
    assert!(catalog.track_by_path(&"m/b.mp3".to_string()).is_none());
}

#[test]
fn ingest_defaults_and_progress_rule() {
    let mut catalog = Catalog::new();
    let rec = record("m/one.mp3", "Unknown Artist", "Unknown Album", "one");
    let id = ingest_file(&mut catalog, &rec);
    let t = catalog.track_by_id(id).unwrap();
    assert_eq!(t.title, "one");
    assert_eq!(t.disc_number, 1);
    assert_eq!(effective_limit(None), 8);
    assert_eq!(effective_limit(Some(0)), 8);
    assert_eq!(effective_limit(Some(4)), 4);
    assert!(should_persist_progress(5));
    assert!(should_persist_progress(10));
    assert!(!should_persist_progress(7));
    assert!(should_persist_progress(0));
}

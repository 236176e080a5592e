use tiff_locator::engine::{
    fingerprint_entry, CpuMatchEngine, GpuMatchEngine, MatchEngine, MatchEngineKind,
    ProgressTracker,
};
use tiff_locator::progress::{make_logging_progress_callback, NoProgress};
use tiff_locator::store::Store;
use tiff_locator::tiling::SchedulerStep;
use tiff_locator::vectorizer::Vectorizer;

fn store_with_files(names: &[(i64, &str)]) -> Store {
    let mut store = Store::new();
    for &(id, name) in names {
        let path = format!("/data/{}", name);
        store.add_file(id, &path, name);
    }
    store
}

#[test]
fn fingerprints_depend_on_id_and_name() {
    let a = fingerprint_entry(7, "scan.tif");
    assert_eq!(a, fingerprint_entry(7, "scan.tif"));
    assert_ne!(a, fingerprint_entry(8, "scan.tif"));
    assert_ne!(a, fingerprint_entry(7, "scan_v2.tif"));
}

#[test]
fn cpu_engine_reports_its_kind() {
    let engine = CpuMatchEngine::new();
    assert_eq!(engine.kind(), MatchEngineKind::Cpu);
    assert_ne!(MatchEngineKind::Cpu, MatchEngineKind::Gpu);
}

#[test]
fn cpu_engine_matches_and_stores() {
    let mut store = store_with_files(&[(1, "HH001_a.tif"), (2, "zzz.tif")]);
    let mut engine = CpuMatchEngine::new();
    let ids = vec!["HH001".to_string()];
    let n = engine
        .match_and_store(&ids, &mut store, 500_000, &mut NoProgress {})
        .expect("cpu matching succeeds");
    assert!(n >= 1);
    assert!(store.get_matches().iter().any(|r| r.hh_id == "HH001" && r.file_id == 1));
}

#[test]
fn stale_vector_cache_entry_is_recomputed() {
    let mut store = store_with_files(&[(7, "HH007_scan.tif")]);
    // A cached vector under an outdated fingerprint, with garbage counts.
    store.upsert_file_vector(7, 12345, &vec![99u64; 512]);

    let mut engine = GpuMatchEngine::new(64, 256, 2);
    let files = store.get_all_files().clone();
    engine.prepare_cache(&files, &mut store);

    let fp = fingerprint_entry(7, "HH007_scan.tif");
    let cached = store.get_file_vector(7, fp).expect("recomputed entry present");
    let expected = Vectorizer::new().encode("HH007_scan.tif");
    assert_eq!(cached, expected);
    // The stale entry is gone: a lookup under the old fingerprint misses.
    assert_eq!(store.get_file_vector(7, 12345), None);
}

#[test]
fn valid_vector_cache_entry_is_reused() {
    let mut store = store_with_files(&[(7, "HH007_scan.tif")]);
    let fp = fingerprint_entry(7, "HH007_scan.tif");
    // A deliberately wrong vector under the *current* fingerprint: the
    // cache must trust the fingerprint and reuse it unchanged.
    store.upsert_file_vector(7, fp, &vec![42u64; 512]);
    let mut engine = GpuMatchEngine::new(64, 256, 2);
    let files = store.get_all_files().clone();
    engine.prepare_cache(&files, &mut store);
    assert_eq!(store.get_file_vector(7, fp), Some(vec![42u64; 512]));
}

#[test]
fn renamed_file_invalidates_warm_cache_entry() {
    let mut store = store_with_files(&[(5, "old_name.tif")]);
    let mut engine = GpuMatchEngine::new(64, 256, 2);
    let files = store.get_all_files().clone();
    engine.prepare_cache(&files, &mut store);

    // The file is renamed: same id, new name. The warm in-memory entry
    // carries the old fingerprint and must not be reused.
    store.add_file(5, "/data/new_name.tif", "new_name.tif");
    let files2 = store.get_all_files().clone();
    engine.prepare_cache(&files2, &mut store);

    let fp_new = fingerprint_entry(5, "new_name.tif");
    let expected = Vectorizer::new().encode("new_name.tif");
    assert_eq!(store.get_file_vector(5, fp_new), Some(expected));
}

#[test]
fn buffer_tag_tracks_file_set() {
    let mut store = store_with_files(&[(1, "a.tif"), (2, "b.tif")]);
    let mut engine = GpuMatchEngine::new(64, 256, 2);
    let files = store.get_all_files().clone();
    assert!(!engine.buffer_decision(&files), "first decision must rebuild");
    assert!(engine.buffer_decision(&files), "unchanged set is reused");
    store.add_file(2, "/data/b2.tif", "b2.tif");
    let files2 = store.get_all_files().clone();
    assert!(!engine.buffer_decision(&files2), "renamed file forces rebuild");
}

#[test]
fn gpu_run_keeps_threshold_and_clears_only_its_ids() {
    let mut store = store_with_files(&[(1, "HH001_a.tif"), (2, "HH002_b.tif")]);
    store.insert_match("HH3", 2, 123_456);

    let mut engine = GpuMatchEngine::new(64, 256, 1);
    let ids = vec!["HH1".to_string(), "HH2".to_string()];
    let mut run = engine
        .begin_run(&ids, &mut store, 500_000, u64::MAX)
        .expect("files exist");

    let mut pending: Vec<tiff_locator::tiling::Tile> = Vec::new();
    let mut max_pending = 0usize;
    loop {
        match run.next_step() {
            SchedulerStep::Submit(tile) => {
                pending.push(tile);
                run.note_submitted();
                max_pending = max_pending.max(pending.len());
            }
            SchedulerStep::Drain => {
                let tile = pending.remove(0);
                // Fake device scores: identifier q against file f scores
                // high exactly when q == f.
                let mut scores = Vec::new();
                for q in 0..tile.id_len {
                    for f in 0..tile.file_len {
                        let gq = tile.id_start + q;
                        let gf = tile.file_start + f;
                        scores.push(if gq == gf { 900_000 } else { 100_000 });
                    }
                }
                let (done, total) = run.drain_tile(&scores);
                assert!(done <= total);
            }
            SchedulerStep::Done => break,
        }
    }
    assert_eq!(max_pending, 1, "inflight limit of one must hold");
    let n = run.finish(&mut store).expect("commit succeeds");
    assert_eq!(n, 2);

    let rows = store.get_matches();
    assert!(rows.iter().any(|r| r.hh_id == "HH3" && r.similarity == 123_456),
        "untouched identifier keeps its match");
    assert!(rows.iter().any(|r| r.hh_id == "HH1" && r.file_id == 1 && r.similarity == 900_000));
    assert!(rows.iter().any(|r| r.hh_id == "HH2" && r.file_id == 2 && r.similarity == 900_000));
    assert_eq!(rows.len(), 3);
}

#[test]
fn gpu_run_refuses_empty_file_set() {
    let mut store = Store::new();
    let mut engine = GpuMatchEngine::new(64, 256, 2);
    let ids = vec!["HH1".to_string()];
    assert!(engine.begin_run(&ids, &mut store, 500_000, u64::MAX).is_err());
}

#[test]
fn progress_tracker_reaches_completion() {
    let mut tracker = ProgressTracker::new(10, 4);
    let (d0, t0) = tracker.emit();
    assert_eq!((d0, t0), (0, 10));
    tracker.register_tile();
    tracker.tile_complete(5, 4);
    let (d1, _) = tracker.emit();
    assert!(d1 >= d0 && d1 <= 10);
    tracker.finish();
    assert_eq!(tracker.emit(), (10, 10));
}

#[test]
fn zero_work_counts_as_complete() {
    let tracker = ProgressTracker::new(0, 0);
    assert_eq!(tracker.emit(), (0, 0));
}

#[test]
fn logging_progress_steps_by_five_percent() {
    let mut lp = make_logging_progress_callback(100);
    assert_eq!(lp.update(0, 100), Some(0));
    assert_eq!(lp.update(2, 100), None);
    assert_eq!(lp.update(5, 100), Some(5));
    assert_eq!(lp.update(7, 100), None);
    assert_eq!(lp.update(100, 100), Some(100));
    assert_eq!(lp.update(100, 100), None);
}

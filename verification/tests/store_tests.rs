use tiff_locator::store::Store;

fn sample_store() -> Store {
    let mut store = Store::new();
    store.add_file(1, "/data/HH001_a.tif", "HH001_a.tif");
    store.add_file(2, "/data/HH002_b.tif", "HH002_b.tif");
    store.add_file(3, "/data/HH003_c.tif", "HH003_c.tif");
    store
}

#[test]
fn add_file_upserts_by_id() {
    let mut store = Store::new();
    store.add_file(1, "/a/x.tif", "x.tif");
    store.add_file(1, "/a/y.tif", "y.tif");
    assert_eq!(store.get_file_count(), 1);
    assert_eq!(store.get_all_files()[0].file_name, "y.tif");
    assert_eq!(store.get_file_id("/a/y.tif"), Some(1));
    assert_eq!(store.get_file_id("/a/x.tif"), None);
}

#[test]
fn clearing_matches_for_some_ids_leaves_others_untouched() {
    let mut store = sample_store();
    store.insert_match("HH1", 1, 900_000);
    store.insert_match("HH2", 2, 800_000);
    store.insert_match("HH3", 3, 700_000);

    let mut session = store.start_match_import();
    session.clear_for_ids(&vec!["HH1".to_string(), "HH2".to_string()]);
    session.insert_match("HH1", 1, 950_000);
    session.commit(&mut store);

    let rows = store.get_matches();
    assert_eq!(rows.len(), 2);
    assert_eq!(rows[0].hh_id, "HH3");
    assert_eq!(rows[0].similarity, 700_000);
    assert_eq!(rows[1].hh_id, "HH1");
    assert_eq!(rows[1].similarity, 950_000);
}

#[test]
fn dropping_a_session_discards_its_operations() {
    let mut store = sample_store();
    store.insert_match("HH1", 1, 900_000);
    {
        let mut session = store.start_match_import();
        session.clear_all();
        session.insert_match("HH2", 2, 100_000);
        // no commit: nothing may reach the store
    }
    let rows = store.get_matches();
    assert_eq!(rows.len(), 1);
    assert_eq!(rows[0].hh_id, "HH1");
}

#[test]
fn insert_match_upserts_on_same_key() {
    let mut store = sample_store();
    store.insert_match("HH1", 1, 500_000);
    store.insert_match("HH1", 1, 600_000);
    store.insert_match("HH1", 2, 400_000);
    let rows = store.get_matches();
    assert_eq!(rows.len(), 2);
    assert_eq!(rows[0].similarity, 600_000);
}

#[test]
fn vector_cache_misses_on_stale_fingerprint() {
    let mut store = sample_store();
    let counts = vec![7u64; 512];
    store.upsert_file_vector(1, 1111, &counts);
    assert_eq!(store.get_file_vector(1, 1111), Some(counts.clone()));
    assert_eq!(store.get_file_vector(1, 2222), None);
    assert_eq!(store.get_file_vector(9, 1111), None);
}

#[test]
fn orphan_vectors_are_dropped() {
    let mut store = sample_store();
    store.upsert_file_vector(1, 10, &vec![1u64; 512]);
    store.upsert_file_vector(99, 10, &vec![2u64; 512]);
    store.cleanup_orphan_vectors();
    assert!(store.get_file_vector(1, 10).is_some());
    assert!(store.get_file_vector(99, 10).is_none());
}

#[test]
fn reference_session_reports_fresh_and_repeated_ids() {
    let mut store = Store::new();
    let mut session = store.start_reference_import();
    assert!(session.insert("HH1"));
    assert!(session.insert("HH2"));
    assert!(!session.insert("HH1"));
    session.commit(&mut store);
    assert_eq!(store.get_reference_id_count(), 2);

    let mut session = store.start_reference_import();
    assert!(!session.insert("HH2"));
    assert!(session.insert("HH3"));
    session.commit(&mut store);
    assert_eq!(store.get_all_reference_ids().clone(), vec!["HH1", "HH2", "HH3"]);
}

#[test]
fn clear_files_also_clears_matches() {
    let mut store = sample_store();
    store.insert_match("HH1", 1, 500_000);
    store.clear_files();
    assert_eq!(store.get_file_count(), 0);
    assert_eq!(store.get_matches().len(), 0);
}

use tiff_locator::reference_loader::{
    find_hh_id_column, CsvLogger, CsvRow, ReferenceLoader, RowIssueKind,
};
use tiff_locator::searcher::Searcher;
use tiff_locator::store::Store;

fn store_with_files(names: &[(i64, &str)]) -> Store {
    let mut store = Store::new();
    for &(id, name) in names {
        let path = format!("/data/{}", name);
        store.add_file(id, &path, name);
    }
    store
}

#[test]
fn search_returns_hits_sorted_by_similarity() {
    let store = store_with_files(&[
        (1, "HH001.tif"),
        (2, "HH001_document_with_long_name.tif"),
        (3, "zzz.tif"),
    ]);
    let searcher = Searcher::new();
    let results = searcher.search_single_id("HH001", &store, 100_000).expect("search succeeds");
    assert!(results.len() >= 2);
    for w in results.windows(2) {
        assert!(w[0].similarity_score >= w[1].similarity_score);
    }
    assert_eq!(results[0].file_name, "HH001.tif");
    assert!(results.iter().all(|r| r.similarity_score >= 100_000));
    assert!(!results.iter().any(|r| r.file_name == "zzz.tif"));
}

#[test]
fn search_on_empty_store_finds_nothing() {
    let store = Store::new();
    let searcher = Searcher::new();
    let results = searcher.search_single_id("HH001", &store, 0).expect("search succeeds");
    assert!(results.is_empty());
}

#[test]
fn store_results_keeps_other_ids() {
    let mut store = store_with_files(&[(1, "HH001.tif")]);
    store.insert_match("OTHER", 1, 42);
    let searcher = Searcher::new();
    let results = searcher.search_single_id("HH001", &store, 100_000).expect("search succeeds");
    assert!(!results.is_empty());
    searcher.store_results("HH001", &results, &mut store).expect("store succeeds");
    let rows = store.get_matches();
    assert!(rows.iter().any(|r| r.hh_id == "OTHER" && r.similarity == 42));
    // The identifier's own rows are exactly the results' (file id, score) pairs.
    let own: Vec<_> = rows.iter().filter(|r| r.hh_id == "HH001").collect();
    assert_eq!(own.len(), 1);
    assert_eq!(own[0].file_id, 1);
    assert_eq!(own[0].similarity, results[0].similarity_score);
}

#[test]
fn store_results_fails_on_unknown_path() {
    let mut store = store_with_files(&[(1, "HH001.tif")]);
    let searcher = Searcher::new();
    let mut results = searcher.search_single_id("HH001", &store, 100_000).expect("search");
    store.clear_files();
    store.add_file(9, "/elsewhere/x.tif", "x.tif");
    assert!(searcher.store_results("HH001", &mut results, &mut store).is_err());
}

#[test]
fn loader_counts_and_dedups_rows() {
    let mut store = Store::new();
    {
        let mut session = store.start_reference_import();
        session.insert("HH9");
        session.commit(&mut store);
    }
    let rows = vec![
        CsvRow::Field("HH1".to_string()),
        CsvRow::Field("  HH2  ".to_string()),
        CsvRow::Field("HH1".to_string()),
        CsvRow::Field("   ".to_string()),
        CsvRow::Field("HH9".to_string()),
        CsvRow::MissingField,
        CsvRow::Malformed,
    ];
    let report = ReferenceLoader::new().load_rows(&rows, &mut store).expect("load succeeds");
    assert_eq!(report.processed, 7);
    assert_eq!(report.inserted, 2);
    assert_eq!(report.skipped, 5);
    assert_eq!(report.errors.len(), 3);
    assert_eq!(report.errors[0].line, 5);
    assert_eq!(report.errors[0].kind, RowIssueKind::EmptyId);
    assert_eq!(report.errors[1].line, 7);
    assert_eq!(report.errors[1].kind, RowIssueKind::MissingColumn);
    assert_eq!(report.errors[2].line, 8);
    assert_eq!(report.errors[2].kind, RowIssueKind::MalformedRow);
    assert_eq!(store.get_all_reference_ids().clone(), vec!["HH9", "HH1", "HH2"]);
}

#[test]
fn loader_refuses_empty_input() {
    let mut store = Store::new();
    assert!(ReferenceLoader::new().load_rows(&Vec::new(), &mut store).is_err());
    assert_eq!(store.get_reference_id_count(), 0);
}

#[test]
fn header_lookup_ignores_case_and_whitespace() {
    let headers = vec!["name".to_string(), "  HH_ID ".to_string(), "hh_id".to_string()];
    assert_eq!(find_hh_id_column(&headers), Some(1));
    let none = vec!["name".to_string(), "id".to_string()];
    assert_eq!(find_hh_id_column(&none), None);
}

#[test]
fn csv_logger_steps_by_five_percent() {
    let mut logger = CsvLogger::new("input.csv", 1000);
    assert_eq!(logger.report(0, 0, 1000), Some(0));
    assert_eq!(logger.report(3, 30, 1000), None);
    assert_eq!(logger.report(10, 100, 1000), Some(10));
    assert_eq!(logger.report(99, 1000, 1000), Some(100));
    assert_eq!(logger.report(99, 1000, 1000), None);
}

use tiff_locator::fuzzy::FuzzyScorer;
use tiff_locator::matcher::{
    extract_id_from_filename, normalize_score, perfect_score, strip_tiff_suffix, Matcher,
    SIMILARITY_SCALE,
};
use tiff_locator::progress::{NoProgress, RecordingSink};
use tiff_locator::store::Store;
use tiff_locator::vectorizer::Vectorizer;

#[test]
fn longer_candidates_get_penalized() {
    let matcher = FuzzyScorer::new();
    let query = "HH001".to_lowercase();
    let perfect = perfect_score(&matcher, &query);
    let exact_score = matcher.score(&query, &query).unwrap();
    let exact_norm = normalize_score(exact_score, &query, &query, perfect);
    assert_eq!(exact_norm, SIMILARITY_SCALE);

    let suffix_candidate = "HH001_document".to_lowercase();
    let suffix_score = matcher.score(&suffix_candidate, &query).expect("suffix score");
    let suffix_norm = normalize_score(suffix_score, &suffix_candidate, &query, perfect);
    assert!(suffix_norm < SIMILARITY_SCALE);
    assert!(suffix_norm > SIMILARITY_SCALE / 5);

    let prefix_candidate = "document_HH001".to_lowercase();
    let prefix_score = matcher.score(&prefix_candidate, &query).expect("prefix score");
    let prefix_norm = normalize_score(prefix_score, &prefix_candidate, &query, perfect);
    assert!(prefix_norm < SIMILARITY_SCALE);
    assert!(prefix_norm > SIMILARITY_SCALE / 5);
}

#[test]
fn strip_tiff_suffix_handles_known_spellings() {
    assert_eq!(strip_tiff_suffix("scan.tif"), Some("scan"));
    assert_eq!(strip_tiff_suffix("scan.tiff"), Some("scan"));
    assert_eq!(strip_tiff_suffix("SCAN.TIF"), Some("SCAN"));
    assert_eq!(strip_tiff_suffix("SCAN.TIFF"), Some("SCAN"));
    assert_eq!(strip_tiff_suffix("scan.png"), None);
    assert_eq!(strip_tiff_suffix("tif"), None);
}

#[test]
fn extract_id_removes_extensions_and_separators() {
    assert_eq!(extract_id_from_filename("HH-001_scan v2.tif"), "HH001scanv2");
    assert_eq!(extract_id_from_filename("a.tif.tif"), "a");
    assert_eq!(extract_id_from_filename("plain"), "plain");
}

#[test]
fn match_and_store_replaces_all_matches() {
    let mut store = Store::new();
    store.add_file(1, "/d/HH001_a.tif", "HH001_a.tif");
    store.add_file(2, "/d/unrelated.tif", "unrelated.tif");
    store.insert_match("OLD", 2, 999_999);

    let matcher = Matcher::new();
    let ids = vec!["HH001".to_string()];
    let count = matcher
        .match_and_store(&ids, &mut store, 500_000, &mut NoProgress {})
        .expect("matching succeeds");
    assert!(count >= 1);
    let rows = store.get_matches();
    assert_eq!(rows.len(), count);
    // The CPU path clears every prior match, including other identifiers'.
    assert!(rows.iter().all(|r| r.hh_id == "HH001"));
    assert!(rows.iter().any(|r| r.file_id == 1));
    assert!(rows.iter().all(|r| r.similarity >= 500_000));
}

#[test]
fn match_and_store_fails_without_files() {
    let mut store = Store::new();
    let matcher = Matcher::new();
    let ids = vec!["HH001".to_string()];
    let r = matcher.match_and_store(&ids, &mut store, 500_000, &mut NoProgress {});
    assert!(r.is_err());
}

#[test]
fn blank_identifiers_match_nothing() {
    let mut store = Store::new();
    store.add_file(1, "/d/HH001_a.tif", "HH001_a.tif");
    let matcher = Matcher::new();
    let ids = vec!["   ".to_string()];
    let count = matcher
        .match_and_store(&ids, &mut store, 0, &mut NoProgress {})
        .expect("matching succeeds");
    assert_eq!(count, 0);
}

#[test]
fn match_ids_reports_progress() {
    let mut store = Store::new();
    store.add_file(1, "/d/HH001_a.tif", "HH001_a.tif");
    let files = store.get_all_files().clone();
    let matcher = Matcher::new();
    let ids: Vec<String> = (0..3).map(|i| format!("HH{:03}", i)).collect();
    let mut sink = RecordingSink::new();
    let _ = matcher.match_ids(&ids, &files, 500_000, &mut sink);
    assert_eq!(sink.calls.last(), Some(&(3usize, 3usize)));
}

#[test]
fn engines_agree_on_clear_cases() {
    // The CPU scorer and the hashed-histogram cosine are different
    // algorithms, but both rank an exact identifier match far above an
    // unrelated name.
    let matcher = FuzzyScorer::new();
    let query = "hh001";
    let perfect = perfect_score(&matcher, query);
    let exact = normalize_score(
        matcher.score("hh001", query).unwrap_or(0),
        "hh001",
        query,
        perfect,
    );
    let unrelated = normalize_score(
        matcher.score("zz999_xyz", query).unwrap_or(0),
        "zz999_xyz",
        query,
        perfect,
    );
    assert!(exact > unrelated);

    let enc = Vectorizer::new();
    let cosine = |a: &str, b: &str| -> f64 {
        let va = enc.encode(a);
        let vb = enc.encode(b);
        let dot: f64 = va.iter().zip(vb.iter()).map(|(&x, &y)| (x * y) as f64).sum();
        let na: f64 = va.iter().map(|&x| (x * x) as f64).sum::<f64>().sqrt();
        let nb: f64 = vb.iter().map(|&x| (x * x) as f64).sum::<f64>().sqrt();
        if na == 0.0 || nb == 0.0 { 0.0 } else { dot / (na * nb) }
    };
    let exact_cos = cosine("hh001", query);
    let unrelated_cos = cosine("zz999_xyz", query);
    assert!(exact_cos > 0.999);
    assert!(exact_cos > unrelated_cos);
}

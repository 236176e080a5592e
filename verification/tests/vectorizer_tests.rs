use tiff_locator::vectorizer::{hash_bytes, normalize, Vectorizer, NGRAM_LEN, VECTOR_SIZE};

fn l2_normalize(counts: &[u64]) -> Vec<f32> {
    let mut v: Vec<f32> = counts.iter().map(|&c| c as f32).collect();
    let norm = v.iter().map(|x| x * x).sum::<f32>().sqrt();
    if norm > 0.0 {
        for x in v.iter_mut() {
            *x /= norm;
        }
    }
    v
}

#[test]
fn encode_empty_is_zero_vector() {
    let v = Vectorizer::new().encode("");
    assert_eq!(v.len(), 512);
    assert!(v.iter().all(|&c| c == 0));
}

#[test]
fn encode_whitespace_only_is_zero_vector() {
    let v = Vectorizer::new().encode("   \t  ");
    assert_eq!(v.len(), VECTOR_SIZE);
    assert!(v.iter().all(|&c| c == 0));
}

#[test]
fn encode_is_case_insensitive() {
    let enc = Vectorizer::new();
    assert_eq!(enc.encode("AB"), enc.encode("ab"));
    assert_eq!(enc.encode("HH001_Scan.TIF"), enc.encode("hh001_scan.tif"));
}

#[test]
fn encode_trims_surrounding_whitespace() {
    let enc = Vectorizer::new();
    assert_eq!(enc.encode("  hh001  "), enc.encode("hh001"));
}

#[test]
fn encode_is_deterministic() {
    let enc = Vectorizer::new();
    let a = enc.encode("HH001_document.tif");
    let b = enc.encode("HH001_document.tif");
    assert_eq!(a, b);
    let other = Vectorizer::new().encode("HH001_document.tif");
    assert_eq!(a, other);
}

#[test]
fn encode_nonempty_is_not_zero() {
    let v = Vectorizer::new().encode("a");
    assert_eq!(v.iter().sum::<u64>(), 1);
}

#[test]
fn encode_counts_one_bucket_per_window() {
    // "abcd" -> windows abc, bcd: two increments in total.
    let v = Vectorizer::new().encode("abcd");
    assert_eq!(v.iter().sum::<u64>(), 2);
}

#[test]
fn scaled_histogram_has_unit_norm() {
    let enc = Vectorizer::new();
    for text in ["a", "ab", "abc", "HH001_document.tif", "many words in a row"] {
        let counts = enc.encode(text);
        let v = l2_normalize(&counts);
        let norm = v.iter().map(|x| x * x).sum::<f32>().sqrt();
        assert!((norm - 1.0).abs() < 1e-5, "norm of {:?} was {}", text, norm);
    }
}

#[test]
fn hash_bytes_matches_rolling_formula() {
    assert_eq!(hash_bytes(&[]), 0);
    assert_eq!(hash_bytes(&[97]), 97);
    assert_eq!(hash_bytes(&[97, 98]), 97 * 31 + 98);
    assert_eq!(NGRAM_LEN, 3);
}

#[test]
fn normalize_trims_and_lowercases() {
    assert_eq!(normalize("  HH001_Scan.TIF  "), "hh001_scan.tif");
    assert_eq!(normalize(""), "");
    assert_eq!(normalize("   "), "");
}

use rassifier::classifier::{rank_and_vote, Classifier, ConstructionError};
use rassifier::distance::Dist;

fn corpus(entries: &[(&str, &str)]) -> Vec<(String, String)> {
    entries.iter().map(|(t, l)| (t.to_string(), l.to_string())).collect()
}

#[test]
fn construct_rejects_zero_k() {
    let entries = corpus(&[("a", "x")]);
    let r = Classifier::construct(&entries, "zstd", 3, 0);
    assert_eq!(r.unwrap_err(), ConstructionError::InvalidK);
}

#[test]
fn construct_rejects_out_of_range_levels() {
    let entries = corpus(&[("a", "x")]);
    let r = Classifier::construct(&entries, "gzip", 10, 1);
    assert_eq!(r.unwrap_err(), ConstructionError::InvalidLevel);
    let r = Classifier::construct(&entries, "zstd", 23, 1);
    assert_eq!(r.unwrap_err(), ConstructionError::InvalidLevel);
    let r = Classifier::construct(&entries, "zlib", -1, 1);
    assert_eq!(r.unwrap_err(), ConstructionError::InvalidLevel);
}

#[test]
fn construct_binds_corpus_and_configuration() {
    let entries = corpus(&[("one text", "one label"), ("two text", "two label")]);
    let c = Classifier::construct(&entries, "Deflate", 6, 2).unwrap();
    assert_eq!(c.training, vec!["one text".to_string(), "two text".to_string()]);
    assert_eq!(c.labels, vec!["one label".to_string(), "two label".to_string()]);
    assert_eq!(c.level, 6);
    assert_eq!(c.k, 2);
}

#[test]
fn corpus_is_readable_by_index() {
    let entries = corpus(&[("first text", "first label"), ("second text", "second label")]);
    let c = Classifier::construct(&entries, "zstd", 3, 1).unwrap();
    assert_eq!(c.size(), 2);
    let (text, label) = c.entry_at(1);
    assert_eq!(text, "second text");
    assert_eq!(label, "second label");
}

#[test]
fn empty_corpus_yields_unknown_sentinel() {
    let entries: Vec<(String, String)> = Vec::new();
    let c = Classifier::construct(&entries, "zstd", 3, 1).unwrap();
    let r = c.classify(&"anything at all".to_string());
    assert_eq!(r.unwrap(), "unknown");
}

#[test]
fn three_entry_corpus_scenario() {
    let entries = corpus(&[
        ("cat sat on mat", "animal"),
        ("dog ran in park", "animal"),
        ("stock market fell", "finance"),
    ]);
    let c = Classifier::construct(&entries, "zstd", 3, 1).unwrap();
    let r = c.classify(&"cat sat on rug".to_string());
    assert_eq!(r.unwrap(), "animal");
}

#[test]
fn classify_is_deterministic() {
    let entries = corpus(&[
        ("cat sat on mat", "animal"),
        ("dog ran in park", "animal"),
        ("stock market fell", "finance"),
    ]);
    let c = Classifier::construct(&entries, "gzip", 6, 2).unwrap();
    let q = "the market fell again".to_string();
    let first = c.classify(&q).unwrap();
    let second = c.classify(&q).unwrap();
    assert_eq!(first, second);
}

#[test]
fn k_larger_than_corpus_uses_all_entries() {
    // k = 3 with a two-entry corpus: the neighbor set is clamped to both
    // entries, their labels differ, and the tie falls to the closer one.
    let entries = corpus(&[
        ("alpha alpha alpha alpha", "first"),
        ("the quick brown fox jumps over the lazy dog", "second"),
    ]);
    let c = Classifier::construct(&entries, "zstd", 3, 3).unwrap();
    let r = c.classify(&"the quick brown fox jumps".to_string());
    assert_eq!(r.unwrap(), "second");
}

#[test]
fn every_backend_tells_texts_apart() {
    // The matching entry sits at index 1: a backend whose compressed size
    // did not reflect the content would tie and fall back to index 0.
    let entries = corpus(&[
        ("dog dog dog dog dog dog dog dog", "other"),
        ("cat cat cat cat cat cat cat cat", "match"),
    ]);
    for (name, level) in [("zstd", 3), ("gzip", 6), ("zlib", 6), ("deflate", 6)] {
        let c = Classifier::construct(&entries, name, level, 1).unwrap();
        let r = c.classify(&"cat cat cat cat cat cat".to_string());
        assert_eq!(r.unwrap(), "match");
    }
}

#[test]
fn equal_distances_break_toward_lower_index() {
    let labels = vec!["left".to_string(), "right".to_string()];
    // 2/4 and 3/6 denote the same rational distance.
    let dists = vec![
        Dist { cxy: 6, cmin: 4, cmax: 4 },
        Dist { cxy: 9, cmin: 6, cmax: 6 },
    ];
    assert_eq!(rank_and_vote(&labels, &dists, 1), "left");
    assert_eq!(rank_and_vote(&labels, &dists, 2), "left");
}

#[test]
fn three_way_tie_prefers_the_lowest_index() {
    let labels = vec!["x".to_string(), "y".to_string(), "z".to_string()];
    let d = Dist { cxy: 5, cmin: 3, cmax: 4 };
    let dists = vec![d, d, d];
    assert_eq!(rank_and_vote(&labels, &dists, 1), "x");
    assert_eq!(rank_and_vote(&labels, &dists, 3), "x");
}

#[test]
fn majority_outvotes_the_nearest_neighbor() {
    let labels = vec!["a".to_string(), "a".to_string(), "b".to_string()];
    let dists = vec![
        Dist { cxy: 5, cmin: 2, cmax: 4 },
        Dist { cxy: 6, cmin: 2, cmax: 4 },
        Dist { cxy: 3, cmin: 2, cmax: 4 },
    ];
    // Nearest alone decides for k = 1.
    assert_eq!(rank_and_vote(&labels, &dists, 1), "b");
    // The majority label wins for k = 3, taken from its nearest carrier.
    assert_eq!(rank_and_vote(&labels, &dists, 3), "a");
}

#[test]
fn empty_corpus_vote_yields_sentinel() {
    let labels: Vec<String> = Vec::new();
    let dists: Vec<Dist> = Vec::new();
    assert_eq!(rank_and_vote(&labels, &dists, 5), "unknown");
}

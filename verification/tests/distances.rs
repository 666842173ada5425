use rassifier::algorithm::CompressionAlgorithm;
use rassifier::distance::{compressed_len, dist_le, distance, from_sizes, Dist};

#[test]
fn from_sizes_orders_min_and_max() {
    let d = from_sizes(3, 5, 7);
    assert_eq!(d, Dist { cxy: 7, cmin: 3, cmax: 5 });
    let d = from_sizes(5, 3, 7);
    assert_eq!(d, Dist { cxy: 7, cmin: 3, cmax: 5 });
}

#[test]
fn from_sizes_guards_empty_inputs() {
    // Both compressed sizes zero: the distance is defined as zero instead of
    // dividing by zero.
    let d = from_sizes(0, 0, 9);
    assert_eq!(d, Dist { cxy: 0, cmin: 0, cmax: 1 });
}

#[test]
fn dist_le_compares_exact_rationals() {
    // 4/5 versus 4/4.
    let a = Dist { cxy: 7, cmin: 3, cmax: 5 };
    let b = Dist { cxy: 6, cmin: 2, cmax: 4 };
    assert!(dist_le(&a, &b));
    assert!(!dist_le(&b, &a));
    // 2/4 and 3/6 denote the same rational.
    let c = Dist { cxy: 6, cmin: 4, cmax: 4 };
    let d = Dist { cxy: 9, cmin: 6, cmax: 6 };
    assert!(dist_le(&c, &d));
    assert!(dist_le(&d, &c));
    // A negative numerator sorts below zero.
    let e = Dist { cxy: 1, cmin: 2, cmax: 3 };
    let z = Dist { cxy: 2, cmin: 2, cmax: 3 };
    assert!(dist_le(&e, &z));
    assert!(!dist_le(&z, &e));
}

#[test]
fn backends_really_compress() {
    // A highly repetitive text must come out smaller than it went in, under
    // every backend; a backend that handed back its input unchanged would
    // fail this.
    let text = "ab".repeat(500);
    for (alg, level) in [
        (CompressionAlgorithm::Zstd, 3),
        (CompressionAlgorithm::Gzip, 6),
        (CompressionAlgorithm::Zlib, 6),
        (CompressionAlgorithm::Deflate, 6),
    ] {
        let n = compressed_len(&text, level, &alg).unwrap();
        assert!(n > 0);
        assert!(n < text.len());
    }
}

#[test]
fn distance_prefers_the_similar_text() {
    let x = "the cat sat on the mat and purred all day".to_string();
    let z = "quarterly earnings rose sharply in the third fiscal period".to_string();
    let q = "the cat sat on the mat and purred".to_string();
    for (alg, level) in [
        (CompressionAlgorithm::Zstd, 3),
        (CompressionAlgorithm::Gzip, 6),
        (CompressionAlgorithm::Zlib, 6),
        (CompressionAlgorithm::Deflate, 6),
    ] {
        let near = distance(&x, &q, level, &alg).unwrap();
        let far = distance(&z, &q, level, &alg).unwrap();
        assert!(dist_le(&near, &far));
        assert!(!dist_le(&far, &near));
    }
}

use rassifier::algorithm::{copy_algorithm, parse_algorithm, CompressionAlgorithm};

#[test]
fn parse_known_names() {
    assert_eq!(parse_algorithm("zstd"), CompressionAlgorithm::Zstd);
    assert_eq!(parse_algorithm("gzip"), CompressionAlgorithm::Gzip);
    assert_eq!(parse_algorithm("zlib"), CompressionAlgorithm::Zlib);
    assert_eq!(parse_algorithm("deflate"), CompressionAlgorithm::Deflate);
}

#[test]
fn parse_is_case_insensitive() {
    assert_eq!(parse_algorithm("ZSTD"), CompressionAlgorithm::Zstd);
    assert_eq!(parse_algorithm("Gzip"), CompressionAlgorithm::Gzip);
    assert_eq!(parse_algorithm("zLiB"), CompressionAlgorithm::Zlib);
    assert_eq!(parse_algorithm("DEFLATE"), CompressionAlgorithm::Deflate);
}

#[test]
fn parse_unrecognized_falls_back_to_zstd() {
    assert_eq!(parse_algorithm("lz4"), CompressionAlgorithm::Zstd);
    assert_eq!(parse_algorithm(""), CompressionAlgorithm::Zstd);
    assert_eq!(parse_algorithm("gzip "), CompressionAlgorithm::Zstd);
}

#[test]
fn copy_algorithm_is_identity() {
    for alg in [
        CompressionAlgorithm::Zstd,
        CompressionAlgorithm::Gzip,
        CompressionAlgorithm::Zlib,
        CompressionAlgorithm::Deflate,
    ] {
        assert_eq!(copy_algorithm(&alg), alg);
    }
}

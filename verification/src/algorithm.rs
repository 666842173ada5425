use vstd::prelude::*;
use vstd::string::StrSliceExecFns;

verus! {

/// The compression backends a classifier can be configured with.
#[derive(Clone, Copy, PartialEq, Eq, Structural, Debug)]
pub enum CompressionAlgorithm {
    Zstd,
    Gzip,
    Zlib,
    Deflate,
}

/// Lowers an ASCII uppercase letter to its lowercase code point; every other
/// code point is left alone.
pub open spec fn lower_code(c: char) -> u32 {
    if 65 <= c as u32 && c as u32 <= 90 {
        (c as u32 + 32) as u32
    } else {
        c as u32
    }
}

/// Two character sequences are equal up to ASCII letter case.
pub open spec fn eq_ignore_ascii_case_spec(a: Seq<char>, b: Seq<char>) -> bool {
    a.len() == b.len() && (forall|i: int| 0 <= i < a.len() ==> lower_code(a[i]) == lower_code(b[i]))
}

/// The algorithm a configuration name selects. Matching is case-insensitive
/// in the ASCII range, and an unrecognized name falls back to the Zstd
/// default rather than failing.
pub open spec fn parse_algorithm_spec(s: Seq<char>) -> CompressionAlgorithm {
    if eq_ignore_ascii_case_spec(s, "zstd"@) {
        CompressionAlgorithm::Zstd
    } else if eq_ignore_ascii_case_spec(s, "gzip"@) {
        CompressionAlgorithm::Gzip
    } else if eq_ignore_ascii_case_spec(s, "zlib"@) {
        CompressionAlgorithm::Zlib
    } else if eq_ignore_ascii_case_spec(s, "deflate"@) {
        CompressionAlgorithm::Deflate
    } else {
        CompressionAlgorithm::Zstd
    }
}

/// Compares two strings for equality up to ASCII letter case.
fn eq_ignore_ascii_case(s: &str, t: &str) -> (r: bool)
    ensures
        r == eq_ignore_ascii_case_spec(s@, t@),
{
    let n = s.unicode_len();
    let m = t.unicode_len();
    if n != m {
        return false;
    }
    let mut i: usize = 0;
    while i < n
        invariant
            n == s@.len(),
            n == t@.len(),
            i <= n,
            forall|j: int| 0 <= j < i ==> lower_code(s@[j]) == lower_code(t@[j]),
        decreases n - i,
    {
        let a = s.get_char(i);
        let b = t.get_char(i);
        let av = a as u32;
        let bv = b as u32;
        let al = if 65 <= av && av <= 90 {
            av + 32
        } else {
            av
        };
        let bl = if 65 <= bv && bv <= 90 {
            bv + 32
        } else {
            bv
        };
        if al != bl {
            return false;
        }
        i += 1;
    }
    true
}

/// Selects the compression algorithm a configuration name asks for;
/// an unrecognized name selects the Zstd default.
pub fn parse_algorithm(alg_str: &str) -> (r: CompressionAlgorithm)
    ensures
        r == parse_algorithm_spec(alg_str@),
{
    if eq_ignore_ascii_case(alg_str, "zstd") {
        CompressionAlgorithm::Zstd
    } else if eq_ignore_ascii_case(alg_str, "gzip") {
        CompressionAlgorithm::Gzip
    } else if eq_ignore_ascii_case(alg_str, "zlib") {
        CompressionAlgorithm::Zlib
    } else if eq_ignore_ascii_case(alg_str, "deflate") {
        CompressionAlgorithm::Deflate
    } else {
        CompressionAlgorithm::Zstd
    }
}

/// Produces an owned copy of an algorithm choice held by reference.
pub fn copy_algorithm(alg: &CompressionAlgorithm) -> (r: CompressionAlgorithm)
    ensures
        r == *alg,
{
    match alg {
        CompressionAlgorithm::Zstd => CompressionAlgorithm::Zstd,
        CompressionAlgorithm::Gzip => CompressionAlgorithm::Gzip,
        CompressionAlgorithm::Zlib => CompressionAlgorithm::Zlib,
        CompressionAlgorithm::Deflate => CompressionAlgorithm::Deflate,
    }
}

} // verus!

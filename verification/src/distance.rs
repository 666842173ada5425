use vstd::prelude::*;
use vstd::string::StringExecFns;

use crate::algorithm::CompressionAlgorithm;

verus! {

/// A compression backend failed on one input. Per the error policy this is
/// fatal for the enclosing call and is never retried.
#[derive(Clone, Copy, PartialEq, Eq, Structural, Debug)]
pub struct CompressionError;

/// The compressed size zstd produces for a text at a given level.
/// The backend is deterministic, so this is a function of the level and the
/// characters alone.
pub uninterp spec fn zstd_len(level: int, text: Seq<char>) -> usize;

/// The compressed size flate2's gzip encoder produces for a text at a given
/// level: a function of the level and the characters alone.
pub uninterp spec fn gzip_len(level: int, text: Seq<char>) -> usize;

/// The compressed size flate2's zlib encoder produces for a text at a given
/// level: a function of the level and the characters alone.
pub uninterp spec fn zlib_len(level: int, text: Seq<char>) -> usize;

/// The compressed size flate2's deflate encoder produces for a text at a
/// given level: a function of the level and the characters alone.
pub uninterp spec fn deflate_len(level: int, text: Seq<char>) -> usize;

/// The compression levels each backend documents as valid: 0 through 22 for
/// zstd (0 selects zstd's own default), 0 through 9 for the flate2 encoders.
pub open spec fn level_ok(alg: CompressionAlgorithm, level: int) -> bool {
    match alg {
        CompressionAlgorithm::Zstd => 0 <= level <= 22,
        CompressionAlgorithm::Gzip => 0 <= level <= 9,
        CompressionAlgorithm::Zlib => 0 <= level <= 9,
        CompressionAlgorithm::Deflate => 0 <= level <= 9,
    }
}

/// The compressed size of a text under the chosen backend and level.
pub open spec fn compressed_len_spec(alg: CompressionAlgorithm, level: int, text: Seq<char>) -> usize {
    match alg {
        CompressionAlgorithm::Zstd => zstd_len(level, text),
        CompressionAlgorithm::Gzip => gzip_len(level, text),
        CompressionAlgorithm::Zlib => zlib_len(level, text),
        CompressionAlgorithm::Deflate => deflate_len(level, text),
    }
}

/// Relies on zstd::bulk::compress: the compressed size is deterministic for
/// a fixed level and input; a level of 0 selects zstd's documented default.
#[verifier::external_body]
fn zstd_compressed_len(text: &str, level: i32) -> (r: Result<usize, CompressionError>)
    requires
        0 <= level <= 22,
    ensures
        (r matches Ok(n) ==> n == zstd_len(level as int, text@)),
{
    match zstd::bulk::compress(text.as_bytes(), level) {
        Ok(v) => Ok(v.len()),
        Err(_) => Err(CompressionError),
    }
}

/// Relies on flate2::write::GzEncoder: the encoded size is deterministic for
/// a fixed level and input; 0 through 9 is the documented level range.
#[verifier::external_body]
fn gzip_compressed_len(text: &str, level: i32) -> (r: Result<usize, CompressionError>)
    requires
        0 <= level <= 9,
    ensures
        (r matches Ok(n) ==> n == gzip_len(level as int, text@)),
{
    let mut encoder =
        flate2::write::GzEncoder::new(Vec::new(), flate2::Compression::new(level as u32));
    if std::io::Write::write_all(&mut encoder, text.as_bytes()).is_err() {
        return Err(CompressionError);
    }
    match encoder.finish() {
        Ok(v) => Ok(v.len()),
        Err(_) => Err(CompressionError),
    }
}

/// Relies on flate2::write::ZlibEncoder: the encoded size is deterministic
/// for a fixed level and input; 0 through 9 is the documented level range.
#[verifier::external_body]
fn zlib_compressed_len(text: &str, level: i32) -> (r: Result<usize, CompressionError>)
    requires
        0 <= level <= 9,
    ensures
        (r matches Ok(n) ==> n == zlib_len(level as int, text@)),
{
    let mut encoder =
        flate2::write::ZlibEncoder::new(Vec::new(), flate2::Compression::new(level as u32));
    if std::io::Write::write_all(&mut encoder, text.as_bytes()).is_err() {
        return Err(CompressionError);
    }
    match encoder.finish() {
        Ok(v) => Ok(v.len()),
        Err(_) => Err(CompressionError),
    }
}

/// Relies on flate2::write::DeflateEncoder: the encoded size is deterministic
/// for a fixed level and input; 0 through 9 is the documented level range.
#[verifier::external_body]
fn deflate_compressed_len(text: &str, level: i32) -> (r: Result<usize, CompressionError>)
    requires
        0 <= level <= 9,
    ensures
        (r matches Ok(n) ==> n == deflate_len(level as int, text@)),
{
    let mut encoder =
        flate2::write::DeflateEncoder::new(Vec::new(), flate2::Compression::new(level as u32));
    if std::io::Write::write_all(&mut encoder, text.as_bytes()).is_err() {
        return Err(CompressionError);
    }
    match encoder.finish() {
        Ok(v) => Ok(v.len()),
        Err(_) => Err(CompressionError),
    }
}

/// The compressed size of a text under the configured backend: the single
/// capability the distance metric is built on.
pub fn compressed_len(text: &str, level: i32, algorithm: &CompressionAlgorithm) -> (r: Result<
    usize,
    CompressionError,
>)
    requires
        level_ok(*algorithm, level as int),
    ensures
        (r matches Ok(n) ==> n == compressed_len_spec(*algorithm, level as int, text@)),
{
    match algorithm {
        CompressionAlgorithm::Zstd => zstd_compressed_len(text, level),
        CompressionAlgorithm::Gzip => gzip_compressed_len(text, level),
        CompressionAlgorithm::Zlib => zlib_compressed_len(text, level),
        CompressionAlgorithm::Deflate => deflate_compressed_len(text, level),
    }
}

/// A normalized compression distance held exactly, as the rational
/// (cxy - cmin) / cmax, so that ranking never rounds. The degenerate case
/// where both inputs compress to size zero is normalized to the zero
/// distance with denominator one.
#[derive(Clone, Copy, PartialEq, Eq, Structural, Debug)]
pub struct Dist {
    /// Compressed size of the two texts concatenated.
    pub cxy: usize,
    /// The smaller of the two texts' own compressed sizes.
    pub cmin: usize,
    /// The larger of the two texts' own compressed sizes.
    pub cmax: usize,
}

impl Dist {
    /// A well-formed distance has its minimum below its maximum and a
    /// positive denominator.
    pub open spec fn wf(self) -> bool {
        self.cmin <= self.cmax && 1 <= self.cmax
    }

    /// Numerator of the distance as a mathematical integer.
    pub open spec fn num(self) -> int {
        self.cxy - self.cmin
    }

    /// Denominator of the distance as a mathematical integer.
    pub open spec fn den(self) -> int {
        self.cmax as int
    }

    /// Rational comparison by cross multiplication: self <= other.
    pub open spec fn le(self, other: Dist) -> bool {
        self.num() * other.den() <= other.num() * self.den()
    }

    /// Rational comparison by cross multiplication: self < other.
    pub open spec fn lt(self, other: Dist) -> bool {
        self.num() * other.den() < other.num() * self.den()
    }

    /// The two distances denote the same rational.
    pub open spec fn deq(self, other: Dist) -> bool {
        self.num() * other.den() == other.num() * self.den()
    }

    /// The distance denotes the rational zero.
    pub open spec fn is_zero(self) -> bool {
        self.num() == 0
    }
}

/// The distance built from the three compressed sizes: of the first text, of
/// the second, and of their concatenation.
pub open spec fn dist_from_sizes(cx: usize, cy: usize, cxy: usize) -> Dist {
    let mx = if cx >= cy {
        cx
    } else {
        cy
    };
    let mn = if cx >= cy {
        cy
    } else {
        cx
    };
    if mx == 0 {
        Dist { cxy: 0, cmin: 0, cmax: 1 }
    } else {
        Dist { cxy: cxy, cmin: mn, cmax: mx }
    }
}

/// The normalized compression distance between two texts under a backend and
/// level, with the corpus text first in the concatenation; the same order is
/// used for every comparison of one classification call.
pub open spec fn dist_spec(alg: CompressionAlgorithm, level: int, x: Seq<char>, y: Seq<char>) -> Dist {
    dist_from_sizes(
        compressed_len_spec(alg, level, x),
        compressed_len_spec(alg, level, y),
        compressed_len_spec(alg, level, x + y),
    )
}

/// Builds a distance from the three compressed sizes.
pub fn from_sizes(cx: usize, cy: usize, cxy: usize) -> (d: Dist)
    ensures
        d == dist_from_sizes(cx, cy, cxy),
        d.wf(),
{
    let mx = if cx >= cy {
        cx
    } else {
        cy
    };
    let mn = if cx >= cy {
        cy
    } else {
        cx
    };
    if mx == 0 {
        Dist { cxy: 0, cmin: 0, cmax: 1 }
    } else {
        Dist { cxy: cxy, cmin: mn, cmax: mx }
    }
}

/// A product of two values that fit a machine word fits 128 bits.
proof fn lemma_word_product_fits(x: u128, y: u128)
    requires
        x <= usize::MAX as u128,
        y <= usize::MAX as u128,
    ensures
        x * y <= u128::MAX,
{
    assert(x * y <= u128::MAX) by (nonlinear_arith)
        requires
            x <= u64::MAX as u128 && y <= u64::MAX as u128,
    ;
}

/// Decides self <= other on exact rationals, by cross multiplication in
/// 128-bit arithmetic with the signs split out.
pub fn dist_le(a: &Dist, b: &Dist) -> (r: bool)
    requires
        a.wf(),
        b.wf(),
    ensures
        r == a.le(*b),
{
    let a_neg = a.cxy < a.cmin;
    let b_neg = b.cxy < b.cmin;
    if a_neg && !b_neg {
        proof {
            assert(a.num() * b.den() < 0 <= b.num() * a.den()) by (nonlinear_arith)
                requires
                    a.num() < 0 && 0 <= b.num() && 1 <= a.den() && 1 <= b.den(),
            ;
        }
        true
    } else if !a_neg && b_neg {
        proof {
            assert(b.num() * a.den() < 0 <= a.num() * b.den()) by (nonlinear_arith)
                requires
                    b.num() < 0 && 0 <= a.num() && 1 <= a.den() && 1 <= b.den(),
            ;
        }
        false
    } else if !a_neg {
        let da = a.cxy - a.cmin;
        let db = b.cxy - b.cmin;
        proof {
            lemma_word_product_fits(da as u128, b.cmax as u128);
            lemma_word_product_fits(db as u128, a.cmax as u128);
        }
        let lhs: u128 = (da as u128) * (b.cmax as u128);
        let rhs: u128 = (db as u128) * (a.cmax as u128);
        proof {
            assert(lhs == a.num() * b.den() && rhs == b.num() * a.den()) by (nonlinear_arith)
                requires
                    lhs == (da as u128) * (b.cmax as u128) && rhs == (db as u128) * (a.cmax
                        as u128) && da == a.cxy - a.cmin && db == b.cxy - b.cmin && a.cmin <= a.cxy
                        && b.cmin <= b.cxy && a.num() == a.cxy - a.cmin && b.num() == b.cxy - b.cmin
                        && a.den() == a.cmax && b.den() == b.cmax,
            ;
        }
        lhs <= rhs
    } else {
        let da = a.cmin - a.cxy;
        let db = b.cmin - b.cxy;
        proof {
            lemma_word_product_fits(da as u128, b.cmax as u128);
            lemma_word_product_fits(db as u128, a.cmax as u128);
        }
        let lhs: u128 = (da as u128) * (b.cmax as u128);
        let rhs: u128 = (db as u128) * (a.cmax as u128);
        proof {
            assert(lhs == -(a.num() * b.den()) && rhs == -(b.num() * a.den()))
                by (nonlinear_arith)
                requires
                    lhs == (da as u128) * (b.cmax as u128) && rhs == (db as u128) * (a.cmax
                        as u128) && da == a.cmin - a.cxy && db == b.cmin - b.cxy && a.cxy < a.cmin
                        && b.cxy < b.cmin && a.num() == a.cxy - a.cmin && b.num() == b.cxy - b.cmin
                        && a.den() == a.cmax && b.den() == b.cmax,
            ;
        }
        lhs >= rhs
    }
}

/// The normalized compression distance between a corpus text and a query,
/// or the backend's failure if any of the three compressions fails.
pub fn distance(x: &String, y: &String, level: i32, algorithm: &CompressionAlgorithm) -> (r: Result<
    Dist,
    CompressionError,
>)
    requires
        level_ok(*algorithm, level as int),
    ensures
        (r matches Ok(d) ==> d == dist_spec(*algorithm, level as int, x@, y@) && d.wf()),
{
    let cx = match compressed_len(x.as_str(), level, algorithm) {
        Ok(n) => n,
        Err(e) => {
            return Err(e);
        },
    };
    let cy = match compressed_len(y.as_str(), level, algorithm) {
        Ok(n) => n,
        Err(e) => {
            return Err(e);
        },
    };
    let xy = x.clone().concat(y.as_str());
    let cxy = match compressed_len(xy.as_str(), level, algorithm) {
        Ok(n) => n,
        Err(e) => {
            return Err(e);
        },
    };
    Ok(from_sizes(cx, cy, cxy))
}

} // verus!

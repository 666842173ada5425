//! Compression-distance text classification.
//!
//! A query text is assigned the label of its nearest neighbors in a labeled
//! training corpus, where nearness is measured by how well a general-purpose
//! compressor encodes the concatenation of two texts compared to each text
//! alone (normalized compression distance). The compression backends are
//! outside collaborators; the distance ranking and the k-nearest-neighbor
//! vote are implemented and verified here.

pub mod algorithm;
pub mod classifier;
pub mod distance;
pub mod laws;
pub mod ranking;
pub mod voting;

use vstd::prelude::*;

use crate::algorithm::{parse_algorithm, parse_algorithm_spec, CompressionAlgorithm};
use crate::distance::{dist_spec, distance, level_ok, CompressionError, Dist};
use crate::ranking::{rank, rank_spec};
use crate::voting::{label_views, vote, vote_spec};

verus! {

/// Construction rejected the configuration: the compression level lies
/// outside the chosen backend's documented range, or no neighbors were
/// asked for. An unrecognized algorithm name is not an error; it falls back
/// to the default backend.
#[derive(Clone, Copy, PartialEq, Eq, Structural, Debug)]
pub enum ConstructionError {
    InvalidLevel,
    InvalidK,
}

/// A classification call failed: it wraps the compression failure that
/// aborted it. Distinct from the empty-corpus sentinel, which is a label,
/// not an error.
#[derive(Clone, Copy, PartialEq, Eq, Structural, Debug)]
pub enum ClassificationError {
    Compression(CompressionError),
}

/// How many ranked entries form the neighbor set: k, clamped to the corpus
/// size.
pub open spec fn neighbor_count(k: int, n: int) -> int {
    if k <= n {
        k
    } else {
        n
    }
}

/// The label classification assigns, given the corpus labels, the distance
/// of the query to every corpus entry, and the neighbor count k: the
/// neighbor set is the first min(k, n) entries of the stable distance
/// ranking, and the vote's ties fall to the nearest neighbor. An empty
/// corpus yields the unknown-label sentinel.
pub open spec fn classify_spec(labels: Seq<Seq<char>>, dists: Seq<Dist>, k: int) -> Seq<char> {
    if dists.len() == 0 {
        "unknown"@
    } else {
        vote_spec(labels, rank_spec(dists).take(neighbor_count(k, dists.len() as int)))
    }
}

/// Ranks the given distances and votes over the first min(k, n) neighbors.
/// Takes the distances as plain values, so the whole selection logic is
/// independent of any compression backend.
pub fn rank_and_vote(labels: &Vec<String>, dists: &Vec<Dist>, k: usize) -> (r: String)
    requires
        labels@.len() == dists@.len(),
        k >= 1,
        forall|j: int| 0 <= j < dists@.len() ==> dists@[j].wf(),
    ensures
        r@ == classify_spec(label_views(labels@), dists@, k as int),
{
    if labels.len() == 0 {
        return "unknown".to_owned();
    }
    let mut neigh = rank(dists);
    let m = if k <= neigh.len() {
        k
    } else {
        neigh.len()
    };
    proof {
        assert(m as int == neighbor_count(k as int, dists@.len() as int));
    }
    neigh.truncate(m);
    proof {
        assert(neigh@ == rank_spec(dists@).subrange(0, m as int));
        assert(neigh@ =~= rank_spec(dists@).take(m as int));
    }
    vote(labels, &neigh)
}

/// A classifier bound once to its corpus and configuration; after
/// construction nothing in it is ever mutated, so any number of classify
/// calls may share it.
#[derive(Debug)]
pub struct Classifier {
    /// The training texts, in load order.
    pub training: Vec<String>,
    /// The label of each training text, index for index.
    pub labels: Vec<String>,
    /// The compression level handed to the backend.
    pub level: i32,
    /// The compression backend.
    pub algorithm: CompressionAlgorithm,
    /// How many nearest neighbors vote.
    pub k: usize,
}

impl Classifier {
    /// Corpus and configuration invariant: texts and labels pair up, at
    /// least one neighbor votes, and the level lies in the backend's
    /// documented range.
    pub open spec fn wf(self) -> bool {
        self.training@.len() == self.labels@.len() && self.k >= 1 && level_ok(
            self.algorithm,
            self.level as int,
        )
    }

    /// The number of corpus entries.
    pub open spec fn corpus_size(self) -> nat {
        self.training@.len()
    }

    /// The distance from the query to every corpus entry, in corpus order.
    pub open spec fn dists_spec(self, query: Seq<char>) -> Seq<Dist> {
        Seq::new(
            self.training@.len(),
            |i: int| dist_spec(self.algorithm, self.level as int, self.training@[i]@, query),
        )
    }

    /// Builds a classifier from corpus entries and configuration. The
    /// algorithm name is matched leniently, with a fallback default; a
    /// compression level outside the chosen backend's range, or a neighbor
    /// count of zero, is rejected rather than clamped.
    pub fn construct(
        entries: &Vec<(String, String)>,
        algorithm_name: &str,
        level: i32,
        k: usize,
    ) -> (r: Result<Classifier, ConstructionError>)
        ensures
            (r matches Err(ConstructionError::InvalidK) <==> k == 0),
            (r matches Err(ConstructionError::InvalidLevel) <==> (k >= 1 && !level_ok(
                parse_algorithm_spec(algorithm_name@),
                level as int,
            ))),
            k >= 1 && level_ok(parse_algorithm_spec(algorithm_name@), level as int) ==> (r matches
                Ok(c) && c.wf() && c.algorithm == parse_algorithm_spec(algorithm_name@)
                && c.level == level && c.k == k && c.training@.len() == entries@.len() && (forall|
                i: int,
            |
                0 <= i < entries@.len() ==> c.training@[i]@ == entries@[i].0@ && c.labels@[i]@
                    == entries@[i].1@)),
    {
        let algorithm = parse_algorithm(algorithm_name);
        if k == 0 {
            return Err(ConstructionError::InvalidK);
        }
        let level_valid = match algorithm {
            CompressionAlgorithm::Zstd => 0 <= level && level <= 22,
            CompressionAlgorithm::Gzip => 0 <= level && level <= 9,
            CompressionAlgorithm::Zlib => 0 <= level && level <= 9,
            CompressionAlgorithm::Deflate => 0 <= level && level <= 9,
        };
        if !level_valid {
            return Err(ConstructionError::InvalidLevel);
        }
        let mut training: Vec<String> = Vec::new();
        let mut labels: Vec<String> = Vec::new();
        let mut i: usize = 0;
        while i < entries.len()
            invariant
                i <= entries@.len(),
                training@.len() == i,
                labels@.len() == i,
                forall|t: int|
                    0 <= t < i ==> training@[t]@ == entries@[t].0@ && labels@[t]@
                        == entries@[t].1@,
            decreases entries@.len() - i,
        {
            training.push(entries[i].0.clone());
            labels.push(entries[i].1.clone());
            i += 1;
        }
        Ok(Classifier { training, labels, level, algorithm, k })
    }

    /// The number of corpus entries held.
    pub fn size(&self) -> (n: usize)
        ensures
            n == self.corpus_size(),
    {
        self.training.len()
    }

    /// The corpus entry at an index, as the pair of its text and its label.
    /// An out-of-range index is a caller's programming error, ruled out up
    /// front rather than handled at run time.
    pub fn entry_at(&self, index: usize) -> (entry: (&String, &String))
        requires
            self.wf(),
            index < self.corpus_size(),
        ensures
            entry.0 == self.training@[index as int],
            entry.1 == self.labels@[index as int],
    {
        (&self.training[index], &self.labels[index])
    }

    /// Classifies a query text: computes the distance from the query to
    /// every corpus entry, ranks them, and lets the nearest min(k, n)
    /// neighbors vote. An empty corpus yields the unknown-label sentinel
    /// without any compression work; a compression failure aborts the call
    /// with an error, never a partial vote.
    pub fn classify(&self, query: &String) -> (r: Result<String, ClassificationError>)
        requires
            self.wf(),
        ensures
            (r matches Ok(lab) ==> lab@ == classify_spec(
                label_views(self.labels@),
                self.dists_spec(query@),
                self.k as int,
            )),
            self.corpus_size() == 0 ==> (r matches Ok(lab) && lab@ == "unknown"@),
            (r matches Err(_) ==> self.corpus_size() > 0),
    {
        if self.training.len() == 0 {
            return Ok("unknown".to_owned());
        }
        let n = self.training.len();
        let mut dists: Vec<Dist> = Vec::new();
        let mut i: usize = 0;
        while i < n
            invariant
                i <= n,
                n == self.training@.len(),
                self.wf(),
                dists@ == self.dists_spec(query@).take(i as int),
                forall|j: int| 0 <= j < dists@.len() ==> dists@[j].wf(),
            decreases n - i,
        {
            match distance(&self.training[i], query, self.level, &self.algorithm) {
                Ok(d) => {
                    dists.push(d);
                    proof {
                        assert(dists@ =~= self.dists_spec(query@).take(i as int + 1));
                    }
                },
                Err(e) => {
                    return Err(ClassificationError::Compression(e));
                },
            }
            i += 1;
        }
        proof {
            assert(dists@ =~= self.dists_spec(query@));
        }
        Ok(rank_and_vote(&self.labels, &dists, self.k))
    }
}

} // verus!

use vstd::prelude::*;

use crate::algorithm::CompressionAlgorithm;
use crate::classifier::{classify_spec, neighbor_count};
use crate::distance::{dist_spec, Dist};
use crate::ranking::{
    insert_sorted, key_lt, lemma_sorted_prefix_props, lemma_sorted_prefix_sorted, rank_spec,
    sorted_prefix,
};
use crate::voting::{count_label, max_count_upto, vote_spec, winner_from};

verus! {

/// The distance of the empty text to itself is exactly zero, under the
/// division-by-zero guard of the metric: all three compressed sizes
/// coincide, so the numerator vanishes whichever branch applies.
pub proof fn lemma_self_distance_empty(alg: CompressionAlgorithm, level: int)
    ensures
        dist_spec(alg, level, Seq::<char>::empty(), Seq::<char>::empty()).is_zero(),
{
    assert(Seq::<char>::empty() + Seq::<char>::empty() =~= Seq::<char>::empty());
}

/// A zero distance is minimal: it compares at or below every well-formed
/// distance with a non-negative numerator.
pub proof fn lemma_zero_minimal(z: Dist, d: Dist)
    requires
        z.wf(),
        z.is_zero(),
        d.wf(),
        d.num() >= 0,
    ensures
        z.le(d),
{
    assert(z.num() * d.den() == 0 && 0 <= d.num() * z.den()) by (nonlinear_arith)
        requires
            z.num() == 0 && d.num() >= 0 && z.den() >= 1,
    ;
}

/// With k at least the corpus size, the neighbor set is the whole ranked
/// corpus: nothing is truncated, every corpus index takes part in the vote,
/// and the vote is over the full ranking.
pub proof fn lemma_neighbors_cover_corpus(labels: Seq<Seq<char>>, dists: Seq<Dist>, k: int)
    requires
        k >= dists.len(),
    ensures
        rank_spec(dists).take(neighbor_count(k, dists.len() as int)) == rank_spec(dists),
        rank_spec(dists).len() == dists.len(),
        forall|x: usize| rank_spec(dists).contains(x) <==> (x as int) < dists.len(),
        dists.len() >= 1 ==> classify_spec(labels, dists, k) == vote_spec(
            labels,
            rank_spec(dists),
        ),
{
    lemma_sorted_prefix_props(dists, dists.len() as int);
    assert(rank_spec(dists).take(neighbor_count(k, dists.len() as int)) =~= rank_spec(dists));
}

/// The neighbor ranking is an ascending, stable sort: along the ranking the
/// distances never decrease, and two entries at the same distance keep
/// their corpus order, so the nearest tied entry is always the one with the
/// lower corpus index.
pub proof fn lemma_rank_is_stable_sort(dists: Seq<Dist>)
    requires
        dists.len() <= usize::MAX,
        forall|j: int| 0 <= j < dists.len() ==> dists[j].wf(),
    ensures
        forall|a: int, b: int|
            0 <= a < b < rank_spec(dists).len() ==> dists[(#[trigger] rank_spec(
                dists,
            )[a]) as int].le(dists[(#[trigger] rank_spec(dists)[b]) as int]),
        forall|a: int, b: int|
            0 <= a < b < rank_spec(dists).len() && dists[(#[trigger] rank_spec(
                dists,
            )[a]) as int].deq(dists[(#[trigger] rank_spec(dists)[b]) as int]) ==> rank_spec(
                dists,
            )[a] < rank_spec(dists)[b],
{
    lemma_sorted_prefix_sorted(dists, dists.len() as int);
    lemma_sorted_prefix_props(dists, dists.len() as int);
    let order = rank_spec(dists);
    assert forall|a: int, b: int| 0 <= a < b < order.len() implies dists[(#[trigger] order[a]) as int].le(
        dists[(#[trigger] order[b]) as int],
    ) && (dists[order[a] as int].deq(dists[order[b] as int]) ==> order[a] < order[b]) by {
        let da = dists[order[a] as int];
        let db = dists[order[b] as int];
        assert(!key_lt(db, order[b], da, order[a]));
        assert(order[a] != order[b]);
        if da.deq(db) {
            assert(db.deq(da));
            assert(order[a] < order[b]);
            assert(da.le(db));
        } else {
            assert(da.lt(db));
            assert(da.le(db));
        }
    }
}

/// Determinism: the chosen label is a function of the corpus labels, the
/// per-entry distances, and k alone, so two classify calls that both
/// succeed on the same classifier state and query return the same label.
pub proof fn lemma_classify_deterministic(
    labels: Seq<Seq<char>>,
    dists: Seq<Dist>,
    k: int,
    r1: Seq<char>,
    r2: Seq<char>,
)
    requires
        r1 == classify_spec(labels, dists, k),
        r2 == classify_spec(labels, dists, k),
    ensures
        r1 == r2,
{
}

/// Tie-break determinism: with a two-entry corpus whose entries lie at the
/// same distance from the query, the entry at the lower corpus index
/// supplies the label, whatever k is.
pub proof fn lemma_tie_break_two(labels: Seq<Seq<char>>, dists: Seq<Dist>, k: int)
    requires
        dists.len() == 2,
        labels.len() == 2,
        dists[0].deq(dists[1]),
        k >= 1,
    ensures
        classify_spec(labels, dists, k) == labels[0],
{
    let empty = Seq::<usize>::empty();
    let s1 = seq![0usize];
    let s2 = seq![0usize, 1usize];
    assert(sorted_prefix(dists, 0) =~= empty);
    assert(sorted_prefix(dists, 1) == insert_sorted(empty, 0usize, dists));
    assert(insert_sorted(empty, 0usize, dists) =~= s1);
    assert(!dists[1].lt(dists[0]));
    assert(sorted_prefix(dists, 2) == insert_sorted(s1, 1usize, dists));
    assert(s1.drop_first() =~= empty);
    assert(insert_sorted(s1, 1usize, dists) =~= seq![s1[0]] + insert_sorted(empty, 1usize, dists));
    assert(insert_sorted(empty, 1usize, dists) =~= seq![1usize]);
    assert(rank_spec(dists) =~= s2);

    let lab0 = labels[0];
    let lab1 = labels[1];
    assert(count_label(labels, empty, lab0) == 0);
    assert(count_label(labels, empty, lab1) == 0);
    assert(s1.drop_last() =~= empty);
    assert(s1.last() == 0usize);
    let c10 = count_label(labels, s1, lab0);
    let c11 = count_label(labels, s1, lab1);
    assert(c10 == 1);
    assert(s2.drop_last() =~= s1);
    assert(s2.last() == 1usize);
    let c20 = count_label(labels, s2, lab0);
    let c21 = count_label(labels, s2, lab1);
    assert(c20 == 1 + if lab1 == lab0 {
        1int
    } else {
        0int
    });
    assert(c21 == c11 + 1);

    if neighbor_count(k, 2) == 1 {
        let neigh = rank_spec(dists).take(1);
        assert(neigh =~= s1);
        assert(max_count_upto(labels, s1, 0) == 0);
        assert(max_count_upto(labels, s1, 1) == c10);
        assert(winner_from(labels, s1, 0) == lab0);
        assert(classify_spec(labels, dists, k) == lab0);
    } else {
        assert(neighbor_count(k, 2) == 2);
        let neigh = rank_spec(dists).take(2);
        assert(neigh =~= s2);
        assert(max_count_upto(labels, s2, 0) == 0);
        assert(max_count_upto(labels, s2, 1) == c20);
        let m2 = max_count_upto(labels, s2, 2);
        if lab1 == lab0 {
            assert(c20 == 2 && c21 == 2);
            assert(m2 == 2);
            assert(winner_from(labels, s2, 0) == lab0);
        } else {
            assert(c11 == 0);
            assert(c20 == 1 && c21 == 1);
            assert(m2 == 1);
            assert(winner_from(labels, s2, 0) == lab0);
        }
        assert(classify_spec(labels, dists, k) == lab0);
    }
}

} // verus!

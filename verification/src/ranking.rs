use vstd::prelude::*;

use crate::distance::{dist_le, Dist};

verus! {

/// Strict total order on (distance, corpus index) keys: by distance first,
/// and between equal distances by corpus index. Ranking by this order is
/// exactly a stable ascending sort of the per-entry distances, which makes
/// the neighbor list, and with it every vote, deterministic.
pub open spec fn key_lt(d1: Dist, i1: usize, d2: Dist, i2: usize) -> bool {
    d1.lt(d2) || (d1.deq(d2) && i1 < i2)
}

/// Where a corpus index sorts into an already ranked sequence: before the
/// first ranked index whose key is larger.
pub open spec fn insert_sorted(order: Seq<usize>, i: usize, dists: Seq<Dist>) -> Seq<usize>
    decreases order.len(),
{
    if order.len() == 0 {
        seq![i]
    } else if key_lt(dists[i as int], i, dists[order[0] as int], order[0]) {
        seq![i] + order
    } else {
        seq![order[0]] + insert_sorted(order.drop_first(), i, dists)
    }
}

/// The ranking of the corpus indices below n, built by insertion in corpus
/// order.
pub open spec fn sorted_prefix(dists: Seq<Dist>, n: int) -> Seq<usize>
    decreases n,
{
    if n <= 0 {
        Seq::empty()
    } else {
        insert_sorted(sorted_prefix(dists, n - 1), (n - 1) as usize, dists)
    }
}

/// Every corpus index, ranked by distance ascending with ties kept in
/// corpus order.
pub open spec fn rank_spec(dists: Seq<Dist>) -> Seq<usize> {
    sorted_prefix(dists, dists.len() as int)
}

/// Prepending to a sequence adds exactly one member.
proof fn lemma_cons_contains(a: usize, s: Seq<usize>, x: usize)
    ensures
        (seq![a] + s).contains(x) <==> (x == a || s.contains(x)),
{
    let c = seq![a] + s;
    if x == a {
        assert(c[0] == x);
    }
    if s.contains(x) {
        let j = choose|j: int| 0 <= j < s.len() && s[j] == x;
        assert(c[j + 1] == x);
    }
    if c.contains(x) {
        let j = choose|j: int| 0 <= j < c.len() && c[j] == x;
        if j > 0 {
            assert(s[j - 1] == x);
        }
    }
}

/// Inserting an index into a ranking keeps every member and adds the new
/// one, and grows the length by one.
proof fn lemma_insert_members(order: Seq<usize>, i: usize, dists: Seq<Dist>, x: usize)
    ensures
        insert_sorted(order, i, dists).len() == order.len() + 1,
        insert_sorted(order, i, dists).contains(x) <==> (order.contains(x) || x == i),
    decreases order.len(),
{
    if order.len() == 0 {
        assert(insert_sorted(order, i, dists) =~= seq![i]);
        assert(seq![i][0] == i);
        assert(!order.contains(x));
    } else if key_lt(dists[i as int], i, dists[order[0] as int], order[0]) {
        lemma_cons_contains(i, order, x);
    } else {
        lemma_insert_members(order.drop_first(), i, dists, x);
        lemma_cons_contains(order[0], insert_sorted(order.drop_first(), i, dists), x);
        lemma_cons_contains(order[0], order.drop_first(), x);
        assert(order =~= seq![order[0]] + order.drop_first());
    }
}

/// The ranking of the indices below n has length n and holds exactly those
/// indices.
pub proof fn lemma_sorted_prefix_props(dists: Seq<Dist>, n: int)
    requires
        0 <= n,
    ensures
        sorted_prefix(dists, n).len() == n,
        forall|x: usize| sorted_prefix(dists, n).contains(x) <==> (x as int) < n,
    decreases n,
{
    if n > 0 {
        lemma_sorted_prefix_props(dists, n - 1);
        assert forall|x: usize| sorted_prefix(dists, n).contains(x) <==> (x as int) < n by {
            lemma_insert_members(sorted_prefix(dists, n - 1), (n - 1) as usize, dists, x);
        }
        lemma_insert_members(sorted_prefix(dists, n - 1), (n - 1) as usize, dists, 0);
    }
}

/// Insertion lands exactly at the first position whose key is larger than
/// the inserted one.
proof fn lemma_insert_at_position(order: Seq<usize>, i: usize, dists: Seq<Dist>, pos: int)
    requires
        0 <= pos <= order.len(),
        forall|j: int|
            0 <= j < pos ==> !key_lt(dists[i as int], i, dists[order[j] as int], order[j]),
        pos < order.len() ==> key_lt(dists[i as int], i, dists[order[pos] as int], order[pos]),
    ensures
        insert_sorted(order, i, dists) == order.insert(pos, i),
    decreases order.len(),
{
    if pos == 0 {
        assert(insert_sorted(order, i, dists) =~= order.insert(0, i));
    } else {
        assert(!key_lt(dists[i as int], i, dists[order[0] as int], order[0]));
        lemma_insert_at_position(order.drop_first(), i, dists, pos - 1);
        assert(insert_sorted(order, i, dists) =~= order.insert(pos, i));
    }
}

/// The ranking is sorted by key: no later entry's key lies below an earlier
/// one's.
pub open spec fn sorted_by_key(order: Seq<usize>, dists: Seq<Dist>) -> bool {
    forall|a: int, b: int|
        0 <= a < b < order.len() ==> !key_lt(
            dists[order[b] as int],
            order[b],
            dists[order[a] as int],
            order[a],
        )
}

/// No corpus index appears twice.
pub open spec fn distinct(order: Seq<usize>) -> bool {
    forall|a: int, b: int| 0 <= a < b < order.len() ==> order[a] != order[b]
}

/// The strict rational order composes across a middle element.
proof fn lemma_rat_order(d1: Dist, d2: Dist, d3: Dist)
    requires
        d1.wf(),
        d2.wf(),
        d3.wf(),
    ensures
        d1.lt(d2) && d2.lt(d3) ==> d1.lt(d3),
        d1.lt(d2) && d2.deq(d3) ==> d1.lt(d3),
        d1.deq(d2) && d2.lt(d3) ==> d1.lt(d3),
        d1.deq(d2) && d2.deq(d3) ==> d1.deq(d3),
{
    let n1 = d1.num();
    let n2 = d2.num();
    let n3 = d3.num();
    let e1 = d1.den();
    let e2 = d2.den();
    let e3 = d3.den();
    assert((n1 * e2 < n2 * e1 && n2 * e3 < n3 * e2 ==> n1 * e3 < n3 * e1) && (n1 * e2 < n2 * e1
        && n2 * e3 == n3 * e2 ==> n1 * e3 < n3 * e1) && (n1 * e2 == n2 * e1 && n2 * e3 < n3 * e2
        ==> n1 * e3 < n3 * e1) && (n1 * e2 == n2 * e1 && n2 * e3 == n3 * e2 ==> n1 * e3 == n3
        * e1)) by (nonlinear_arith)
        requires
            1 <= e1 && 1 <= e2 && 1 <= e3,
    ;
}

/// The strict key order composes across a middle element.
proof fn lemma_key_lt_trans(d1: Dist, i1: usize, d2: Dist, i2: usize, d3: Dist, i3: usize)
    requires
        d1.wf(),
        d2.wf(),
        d3.wf(),
        key_lt(d1, i1, d2, i2),
        key_lt(d2, i2, d3, i3),
    ensures
        key_lt(d1, i1, d3, i3),
{
    lemma_rat_order(d1, d2, d3);
}

/// Inserting below the whole ranking keeps it sorted, and inserting a fresh
/// index keeps its entries distinct.
proof fn lemma_insert_keeps_sorted(order: Seq<usize>, i: usize, dists: Seq<Dist>)
    requires
        sorted_by_key(order, dists),
        distinct(order),
        !order.contains(i),
        forall|j: int| 0 <= j < dists.len() ==> dists[j].wf(),
        forall|j: int| 0 <= j < order.len() ==> (order[j] as int) < dists.len(),
        (i as int) < dists.len(),
    ensures
        sorted_by_key(insert_sorted(order, i, dists), dists),
        distinct(insert_sorted(order, i, dists)),
    decreases order.len(),
{
    let c = insert_sorted(order, i, dists);
    if order.len() == 0 {
        assert(c =~= seq![i]);
    } else if key_lt(dists[i as int], i, dists[order[0] as int], order[0]) {
        assert(c =~= seq![i] + order);
        assert forall|b: int| 1 <= b < c.len() implies !key_lt(
            dists[c[b] as int],
            c[b],
            dists[c[0] as int],
            c[0],
        ) && c[0] != #[trigger] c[b] by {
            assert(c[b] == order[b - 1]);
            assert(order.contains(order[b - 1]));
            if key_lt(dists[order[b - 1] as int], order[b - 1], dists[i as int], i) {
                lemma_key_lt_trans(
                    dists[order[b - 1] as int],
                    order[b - 1],
                    dists[i as int],
                    i,
                    dists[order[0] as int],
                    order[0],
                );
            }
        }
        assert forall|a: int, b: int| 1 <= a < b < c.len() implies !key_lt(
            dists[(#[trigger] c[b]) as int],
            c[b],
            dists[(#[trigger] c[a]) as int],
            c[a],
        ) && c[a] != c[b] by {
            assert(c[a] == order[a - 1]);
            assert(c[b] == order[b - 1]);
        }
    } else {
        let rest = insert_sorted(order.drop_first(), i, dists);
        assert(c =~= seq![order[0]] + rest);
        assert forall|j: int| 0 <= j < order.drop_first().len() implies order.drop_first()[j]
            == order[j + 1] by {}
        assert(!order.drop_first().contains(i)) by {
            if order.drop_first().contains(i) {
                let j = choose|j: int|
                    0 <= j < order.drop_first().len() && order.drop_first()[j] == i;
                assert(order[j + 1] == i);
            }
        }
        lemma_insert_keeps_sorted(order.drop_first(), i, dists, );
        assert forall|b: int| 1 <= b < c.len() implies !key_lt(
            dists[(#[trigger] c[b]) as int],
            c[b],
            dists[c[0] as int],
            c[0],
        ) && c[0] != c[b] by {
            assert(c[b] == rest[b - 1]);
            assert(rest.contains(rest[b - 1]));
            lemma_insert_members(order.drop_first(), i, dists, rest[b - 1]);
            if order.drop_first().contains(rest[b - 1]) {
                let j = choose|j: int|
                    0 <= j < order.drop_first().len() && order.drop_first()[j] == rest[b - 1];
                assert(order[j + 1] == rest[b - 1]);
            } else {
                assert(rest[b - 1] == i);
                assert(order.contains(order[0]));
            }
        }
        assert forall|a: int, b: int| 1 <= a < b < c.len() implies !key_lt(
            dists[(#[trigger] c[b]) as int],
            c[b],
            dists[(#[trigger] c[a]) as int],
            c[a],
        ) && c[a] != c[b] by {
            assert(c[a] == rest[a - 1]);
            assert(c[b] == rest[b - 1]);
        }
    }
}

/// The ranking of all indices is a sorted sequence of distinct indices.
pub proof fn lemma_sorted_prefix_sorted(dists: Seq<Dist>, n: int)
    requires
        0 <= n <= dists.len(),
        dists.len() <= usize::MAX,
        forall|j: int| 0 <= j < dists.len() ==> dists[j].wf(),
    ensures
        sorted_by_key(sorted_prefix(dists, n), dists),
        distinct(sorted_prefix(dists, n)),
    decreases n,
{
    if n > 0 {
        lemma_sorted_prefix_sorted(dists, n - 1);
        lemma_sorted_prefix_props(dists, n - 1);
        assert(((n - 1) as usize) as int == n - 1);
        assert(!sorted_prefix(dists, n - 1).contains((n - 1) as usize));
        assert forall|j: int|
            0 <= j < sorted_prefix(dists, n - 1).len() implies ((#[trigger] sorted_prefix(
            dists,
            n - 1,
        )[j]) as int) < dists.len() by {
            assert(sorted_prefix(dists, n - 1).contains(sorted_prefix(dists, n - 1)[j]));
        }
        lemma_insert_keeps_sorted(sorted_prefix(dists, n - 1), (n - 1) as usize, dists);
    }
}

/// Decides the strict key order for two corpus indices and their distances.
pub fn key_lt_exec(d1: &Dist, i1: usize, d2: &Dist, i2: usize) -> (r: bool)
    requires
        d1.wf(),
        d2.wf(),
    ensures
        r == key_lt(*d1, i1, *d2, i2),
{
    let le21 = dist_le(d2, d1);
    if !le21 {
        true
    } else {
        let le12 = dist_le(d1, d2);
        if le12 {
            i1 < i2
        } else {
            false
        }
    }
}

/// Ranks all corpus indices by distance ascending, keeping ties in corpus
/// order, by insertion sort.
pub fn rank(dists: &Vec<Dist>) -> (order: Vec<usize>)
    requires
        forall|j: int| 0 <= j < dists@.len() ==> dists@[j].wf(),
    ensures
        order@ == rank_spec(dists@),
        order@.len() == dists@.len(),
        forall|j: int| 0 <= j < order@.len() ==> (order@[j] as int) < dists@.len(),
{
    let n = dists.len();
    let mut order: Vec<usize> = Vec::new();
    let mut i: usize = 0;
    while i < n
        invariant
            i <= n,
            n == dists@.len(),
            forall|j: int| 0 <= j < dists@.len() ==> dists@[j].wf(),
            order@ == sorted_prefix(dists@, i as int),
            order@.len() == i,
            forall|j: int| 0 <= j < order@.len() ==> (order@[j] as int) < i,
        decreases n - i,
    {
        let mut pos: usize = 0;
        while pos < order.len() && !key_lt_exec(&dists[i], i, &dists[order[pos]], order[pos])
            invariant
                pos <= order@.len(),
                i < n,
                n == dists@.len(),
                forall|j: int| 0 <= j < dists@.len() ==> dists@[j].wf(),
                forall|j: int| 0 <= j < order@.len() ==> (order@[j] as int) < i,
                forall|j: int|
                    0 <= j < pos ==> !key_lt(
                        dists@[i as int],
                        i,
                        dists@[order@[j] as int],
                        order@[j],
                    ),
            decreases order@.len() - pos,
        {
            pos += 1;
        }
        proof {
            lemma_insert_at_position(order@, i, dists@, pos as int);
        }
        order.insert(pos, i);
        proof {
            assert(order@ == insert_sorted(sorted_prefix(dists@, i as int), i, dists@));
            assert(order@ == sorted_prefix(dists@, i as int + 1));
            lemma_sorted_prefix_props(dists@, i as int + 1);
            assert forall|j: int| 0 <= j < order@.len() implies (order@[j] as int) < i + 1 by {
                assert(order@.contains(order@[j]));
            }
        }
        i += 1;
    }
    proof {
        assert(order@ == rank_spec(dists@));
        lemma_sorted_prefix_props(dists@, n as int);
        assert forall|j: int| 0 <= j < order@.len() implies (order@[j] as int) < dists@.len() by {
            assert(order@.contains(order@[j]));
        }
    }
    order
}

} // verus!

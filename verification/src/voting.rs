use vstd::prelude::*;

verus! {

/// The labels of a corpus as character sequences, in corpus order.
pub open spec fn label_views(labels: Seq<String>) -> Seq<Seq<char>> {
    labels.map_values(|s: String| s@)
}

/// How many entries of the neighbor list carry a given label.
pub open spec fn count_label(labels: Seq<Seq<char>>, neigh: Seq<usize>, lab: Seq<char>) -> nat
    decreases neigh.len(),
{
    if neigh.len() == 0 {
        0
    } else {
        count_label(labels, neigh.drop_last(), lab) + if labels[neigh.last() as int] == lab {
            1nat
        } else {
            0nat
        }
    }
}

/// The largest label count among the first j neighbors.
pub open spec fn max_count_upto(labels: Seq<Seq<char>>, neigh: Seq<usize>, j: int) -> nat
    decreases j,
{
    if j <= 0 {
        0
    } else {
        let c = count_label(labels, neigh, labels[neigh[j - 1] as int]);
        let m = max_count_upto(labels, neigh, j - 1);
        if c > m {
            c
        } else {
            m
        }
    }
}

/// The winning label from position j on: scanning neighbors from nearest to
/// farthest, the first whose count over the whole neighbor list reaches the
/// maximum. Ties between equally frequent labels therefore fall to the one
/// with the nearer neighbor.
pub open spec fn winner_from(labels: Seq<Seq<char>>, neigh: Seq<usize>, j: int) -> Seq<char>
    decreases neigh.len() - j,
{
    if j < 0 || j >= neigh.len() {
        Seq::empty()
    } else if count_label(labels, neigh, labels[neigh[j] as int]) == max_count_upto(
        labels,
        neigh,
        neigh.len() as int,
    ) {
        labels[neigh[j] as int]
    } else {
        winner_from(labels, neigh, j + 1)
    }
}

/// The label k-NN majority voting selects over a ranked neighbor list.
pub open spec fn vote_spec(labels: Seq<Seq<char>>, neigh: Seq<usize>) -> Seq<char> {
    winner_from(labels, neigh, 0)
}

/// Counting one more neighbor adds its hit or nothing.
proof fn lemma_count_take_step(labels: Seq<Seq<char>>, neigh: Seq<usize>, lab: Seq<char>, j: int)
    requires
        0 <= j < neigh.len(),
    ensures
        count_label(labels, neigh.take(j + 1), lab) == count_label(labels, neigh.take(j), lab)
            + if labels[neigh[j] as int] == lab {
            1nat
        } else {
            0nat
        },
{
    assert(neigh.take(j + 1).drop_last() =~= neigh.take(j));
    assert(neigh.take(j + 1).last() == neigh[j]);
}

/// Every neighbor's own label is counted at least once.
proof fn lemma_count_self_positive(labels: Seq<Seq<char>>, neigh: Seq<usize>, j: int)
    requires
        0 <= j < neigh.len(),
    ensures
        count_label(labels, neigh, labels[neigh[j] as int]) >= 1,
    decreases neigh.len(),
{
    if j == neigh.len() - 1 {
        assert(neigh.last() == neigh[j]);
    } else {
        lemma_count_self_positive(labels, neigh.drop_last(), j);
        assert(neigh.drop_last()[j] == neigh[j]);
    }
}

/// The maximum over a nonempty prefix is attained by some neighbor in it,
/// and is at least one.
proof fn lemma_max_attained(labels: Seq<Seq<char>>, neigh: Seq<usize>, j: int)
    requires
        1 <= j <= neigh.len(),
    ensures
        max_count_upto(labels, neigh, j) >= 1,
        exists|jj: int|
            0 <= jj < j && count_label(labels, neigh, labels[neigh[jj] as int]) == max_count_upto(
                labels,
                neigh,
                j,
            ),
    decreases j,
{
    lemma_count_self_positive(labels, neigh, j - 1);
    if j == 1 {
        assert(count_label(labels, neigh, labels[neigh[0] as int]) == max_count_upto(
            labels,
            neigh,
            1,
        ));
    } else {
        lemma_max_attained(labels, neigh, j - 1);
        let c = count_label(labels, neigh, labels[neigh[j - 1] as int]);
        let m = max_count_upto(labels, neigh, j - 1);
        if c > m {
            assert(count_label(labels, neigh, labels[neigh[j - 1] as int]) == max_count_upto(
                labels,
                neigh,
                j,
            ));
        } else {
            let jj = choose|jj: int|
                0 <= jj < j - 1 && count_label(labels, neigh, labels[neigh[jj] as int]) == m;
            assert(count_label(labels, neigh, labels[neigh[jj] as int]) == max_count_upto(
                labels,
                neigh,
                j,
            ));
        }
    }
}

/// Counts how many neighbors carry the given label.
fn count_label_exec(labels: &Vec<String>, neigh: &Vec<usize>, lab: &String) -> (c: usize)
    requires
        forall|j: int| 0 <= j < neigh@.len() ==> (neigh@[j] as int) < labels@.len(),
    ensures
        c == count_label(label_views(labels@), neigh@, lab@),
{
    let ghost lv = label_views(labels@);
    let mut c: usize = 0;
    let mut j: usize = 0;
    while j < neigh.len()
        invariant
            j <= neigh@.len(),
            c <= j,
            lv == label_views(labels@),
            forall|t: int| 0 <= t < neigh@.len() ==> (neigh@[t] as int) < labels@.len(),
            c == count_label(lv, neigh@.take(j as int), lab@),
        decreases neigh@.len() - j,
    {
        proof {
            lemma_count_take_step(lv, neigh@, lab@, j as int);
        }
        if labels[neigh[j]].eq(lab) {
            c += 1;
        }
        j += 1;
    }
    proof {
        assert(neigh@.take(neigh@.len() as int) =~= neigh@);
    }
    c
}

/// Majority vote over a ranked, nonempty neighbor list: the most frequent
/// label wins, and among equally frequent labels the one whose neighbor is
/// ranked nearest wins.
pub fn vote(labels: &Vec<String>, neigh: &Vec<usize>) -> (r: String)
    requires
        neigh@.len() >= 1,
        forall|j: int| 0 <= j < neigh@.len() ==> (neigh@[j] as int) < labels@.len(),
    ensures
        r@ == vote_spec(label_views(labels@), neigh@),
{
    let ghost lv = label_views(labels@);
    let n = neigh.len();
    let mut maxc: usize = 0;
    let mut j: usize = 0;
    while j < n
        invariant
            j <= n,
            n == neigh@.len(),
            lv == label_views(labels@),
            forall|t: int| 0 <= t < neigh@.len() ==> (neigh@[t] as int) < labels@.len(),
            maxc == max_count_upto(lv, neigh@, j as int),
        decreases n - j,
    {
        let c = count_label_exec(labels, neigh, &labels[neigh[j]]);
        if c > maxc {
            maxc = c;
        }
        j += 1;
    }
    let mut jj: usize = 0;
    while jj < n
        invariant
            jj <= n,
            n == neigh@.len(),
            n >= 1,
            lv == label_views(labels@),
            forall|t: int| 0 <= t < neigh@.len() ==> (neigh@[t] as int) < labels@.len(),
            maxc == max_count_upto(lv, neigh@, neigh@.len() as int),
            forall|t: int|
                0 <= t < jj ==> count_label(lv, neigh@, lv[neigh@[t] as int]) != maxc,
            winner_from(lv, neigh@, 0) == winner_from(lv, neigh@, jj as int),
        decreases n - jj,
    {
        let c = count_label_exec(labels, neigh, &labels[neigh[jj]]);
        if c == maxc {
            return labels[neigh[jj]].clone();
        }
        jj += 1;
    }
    proof {
        lemma_max_attained(lv, neigh@, neigh@.len() as int);
        assert(false);
    }
    labels[neigh[0]].clone()
}

} // verus!

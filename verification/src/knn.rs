//! The classification core: neighbor search under a distance-key ordering,
//! majority voting, and whole-test-set classification with accuracy
//! scoring.
//!
//! A *distance key* is a `u64` whose numeric order agrees with the order of
//! the real distances it stands for (for non-negative IEEE-754 doubles,
//! `f64::to_bits` gives such a key).  Working over keys keeps the whole
//! ranking logic, ties included, inside verified code.

use vstd::multiset::Multiset;
use vstd::prelude::*;

use crate::KnnError;

verus! {

/// Number of `true` entries in a sequence of votes.
pub open spec fn count_true(s: Seq<bool>) -> int
    decreases s.len(),
{
    if s.len() == 0 {
        0
    } else {
        count_true(s.drop_last()) + if s.last() {
            1int
        } else {
            0int
        }
    }
}

/// The majority label of a non-empty sequence of votes.
///
/// The label with the strictly greater tally wins.  On an exact tie the
/// vote falls back to the first entry: the sequences voted on here are in
/// neighbor order, so that is the label of the single nearest neighbor.
pub open spec fn majority_of(s: Seq<bool>) -> bool {
    if 2 * count_true(s) > s.len() {
        true
    } else if 2 * count_true(s) < s.len() {
        false
    } else {
        s[0]
    }
}

proof fn lemma_count_true_take_step(s: Seq<bool>, i: int)
    requires
        0 <= i < s.len(),
    ensures
        count_true(s.take(i + 1)) == count_true(s.take(i)) + if s[i] {
            1int
        } else {
            0int
        },
{
    assert(s.take(i + 1).drop_last() =~= s.take(i));
    assert(s.take(i + 1).last() == s[i]);
}

proof fn lemma_count_true_bounds(s: Seq<bool>)
    ensures
        0 <= count_true(s) <= s.len(),
    decreases s.len(),
{
    if s.len() > 0 {
        lemma_count_true_bounds(s.drop_last());
    }
}

/// `count_true` is a multiset notion: it equals the multiplicity of `true`
/// in the multiset of the sequence's entries.
pub proof fn lemma_count_true_multiset(s: Seq<bool>)
    ensures
        count_true(s) == s.to_multiset().count(true),
    decreases s.len(),
{
    broadcast use vstd::seq_lib::group_to_multiset_ensures;

    if s.len() == 0 {
        assert(s.to_multiset() =~= Multiset::<bool>::empty());
    } else {
        lemma_count_true_multiset(s.drop_last());
        assert(s =~= s.drop_last().push(s.last()));
        assert(s.to_multiset() =~= s.drop_last().to_multiset().insert(s.last()));
    }
}

/// Permutation invariance of the majority vote: two vote sequences that
/// hold the same votes in any order, with a strict (untied) majority,
/// have the same majority label.
pub proof fn lemma_vote_permutation_invariant(a: Seq<bool>, b: Seq<bool>)
    requires
        a.len() > 0,
        a.to_multiset() == b.to_multiset(),
        2 * count_true(a) != a.len(),
    ensures
        majority_of(a) == majority_of(b),
{
    broadcast use vstd::seq_lib::group_to_multiset_ensures;

    lemma_count_true_multiset(a);
    lemma_count_true_multiset(b);
    assert(a.len() == a.to_multiset().len());
    assert(b.len() == b.to_multiset().len());
}

/// Majority vote over the labels of a row's nearest neighbors, in neighbor
/// order.  Returns the label with the strictly greater tally; an exact tie
/// falls back to the label of the single nearest neighbor (`labels[0]`).
pub fn vote_classifier(labels: &Vec<bool>) -> (winner: bool)
    requires
        labels@.len() > 0,
    ensures
        winner == majority_of(labels@),
        2 * count_true(labels@) > labels@.len() ==> winner,
        2 * count_true(labels@) < labels@.len() ==> !winner,
{
    let n = labels.len();
    let mut trues: usize = 0;
    for i in 0..n
        invariant
            n == labels@.len(),
            trues <= i <= n,
            trues == count_true(labels@.take(i as int)),
    {
        proof {
            lemma_count_true_take_step(labels@, i as int);
        }
        if labels[i] {
            trues = trues + 1;
        }
    }
    proof {
        assert(labels@.take(n as int) =~= labels@);
    }
    if trues > n - trues {
        true
    } else if trues < n - trues {
        false
    } else {
        labels[0]
    }
}

/// The dimension guard of the distance function: two vectors may be
/// compared only when their lengths agree, and the check comes before any
/// arithmetic.  The arithmetic itself is floating point and lives with
/// the caller; this decision is the library's.  Fails with
/// `DimensionMismatch` exactly when the lengths differ.
pub fn check_dimensions(len_1: usize, len_2: usize) -> (result: Result<(), KnnError>)
    ensures
        match result {
            Ok(()) => len_1 == len_2,
            Err(e) => e == KnnError::DimensionMismatch && len_1 != len_2,
        },
{
    if len_1 != len_2 {
        Err(KnnError::DimensionMismatch)
    } else {
        Ok(())
    }
}

/// Strict "closer to the query" order on training indices under the
/// distance keys `d`: the smaller key comes first, and equal keys are
/// resolved toward the smaller index.  This is exactly the order a stable
/// sort by distance leaves ties in.
pub open spec fn lex_before(d: Seq<u64>, i: int, j: int) -> bool {
    d[i] < d[j] || (d[i] == d[j] && i < j)
}

/// Whether `x` occurs among the indices `r`.
pub open spec fn contains_index(r: Seq<usize>, x: int) -> bool {
    exists|a: int| 0 <= a < r.len() && #[trigger] r[a] == x
}

/// `r` holds the `k` nearest training indices under the keys `d`: it has
/// exactly `k` entries, all valid indices into `d`, listed in strictly
/// ascending `lex_before` order (so distances are non-decreasing and ties
/// keep the original index order), and every index left out comes after
/// every index listed.  For given `d` and `k <= d.len()` exactly one such
/// sequence exists.
pub open spec fn is_k_nearest(d: Seq<u64>, k: int, r: Seq<usize>) -> bool {
    &&& r.len() == k
    &&& forall|a: int| 0 <= a < r.len() ==> (#[trigger] r[a]) < d.len()
    &&& forall|a: int, b: int|
        0 <= a < b < r.len() ==> #[trigger] lex_before(d, r[a] as int, r[b] as int)
    &&& forall|a: int, x: int|
        0 <= a < r.len() && 0 <= x < d.len() && !contains_index(r, x) ==> #[trigger] lex_before(
            d,
            r[a] as int,
            x,
        )
}

proof fn lemma_count_true_update(s: Seq<bool>, i: int)
    requires
        0 <= i < s.len(),
        !s[i],
    ensures
        count_true(s.update(i, true)) == count_true(s) + 1,
    decreases s.len(),
{
    let t = s.update(i, true);
    if i == s.len() - 1 {
        assert(t.drop_last() =~= s.drop_last());
        assert(t.last());
    } else {
        assert(t.drop_last() =~= s.drop_last().update(i, true));
        assert(t.last() == s.last());
        lemma_count_true_update(s.drop_last(), i);
    }
}

proof fn lemma_count_true_all(s: Seq<bool>)
    requires
        forall|i: int| 0 <= i < s.len() ==> #[trigger] s[i],
    ensures
        count_true(s) == s.len(),
    decreases s.len(),
{
    if s.len() > 0 {
        lemma_count_true_all(s.drop_last());
    }
}

/// The indices of the `num_neighbors` training vectors nearest to the
/// query, given the distance key from the query to each training vector.
/// Indices come in ascending order of distance; equidistant vectors keep
/// their original index order, as a stable sort over the keys would leave
/// them.  Fails with `InsufficientNeighbors` exactly when more neighbors
/// are requested than training vectors exist.
pub fn nearest_vectors(dist: &Vec<u64>, num_neighbors: usize) -> (result: Result<
    Vec<usize>,
    KnnError,
>)
    ensures
        match result {
            Ok(r) => num_neighbors <= dist@.len() && is_k_nearest(
                dist@,
                num_neighbors as int,
                r@,
            ),
            Err(e) => e == KnnError::InsufficientNeighbors && num_neighbors > dist@.len(),
        },
{
    let n = dist.len();
    if num_neighbors > n {
        return Err(KnnError::InsufficientNeighbors);
    }
    let mut chosen: Vec<bool> = Vec::new();
    for i in 0..n
        invariant
            chosen@.len() == i,
            count_true(chosen@) == 0,
            forall|j: int| 0 <= j < i ==> !(#[trigger] chosen@[j]),
    {
        proof {
            lemma_count_true_take_step(chosen@.push(false), i as int);
            assert(chosen@.push(false).take(i as int) =~= chosen@);
            assert(chosen@.push(false).take(i + 1 as int) =~= chosen@.push(false));
        }
        chosen.push(false);
    }
    let mut picked: Vec<usize> = Vec::new();
    while picked.len() < num_neighbors
        invariant
            n == dist@.len(),
            num_neighbors <= n,
            chosen@.len() == n,
            picked@.len() <= num_neighbors,
            count_true(chosen@) == picked@.len(),
            forall|a: int| 0 <= a < picked@.len() ==> (#[trigger] picked@[a]) < n,
            forall|x: int|
                0 <= x < n ==> (chosen@[x] <==> contains_index(picked@, x)),
            forall|a: int, b: int|
                0 <= a < b < picked@.len() ==> #[trigger] lex_before(
                    dist@,
                    picked@[a] as int,
                    picked@[b] as int,
                ),
            forall|a: int, x: int|
                0 <= a < picked@.len() && 0 <= x < n && !chosen@[x] ==> #[trigger] lex_before(
                    dist@,
                    picked@[a] as int,
                    x,
                ),
        decreases num_neighbors - picked@.len(),
    {
        let mut best: usize = 0;
        let mut found = false;
        for i in 0..n
            invariant
                n == dist@.len(),
                chosen@.len() == n,
                found ==> best < i <= n && !chosen@[best as int],
                found ==> forall|j: int|
                    0 <= j < i && !chosen@[j] && j != best ==> lex_before(
                        dist@,
                        best as int,
                        j,
                    ),
                !found ==> forall|j: int| 0 <= j < i ==> #[trigger] chosen@[j],
        {
            if !chosen[i] {
                if !found {
                    best = i;
                    found = true;
                } else if dist[i] < dist[best] {
                    best = i;
                }
            }
        }
        if !found {
            proof {
                lemma_count_true_all(chosen@);
                lemma_count_true_bounds(chosen@);
            }
            // unreachable: fewer than `num_neighbors <= n` indices are
            // chosen, so an unchosen one exists
            assert(false);
        }
        proof {
            lemma_count_true_update(chosen@, best as int);
        }
        let ghost old_picked = picked@;
        let ghost old_chosen = chosen@;
        chosen.set(best, true);
        picked.push(best);
        proof {
            assert forall|x: int|
                0 <= x < n implies (chosen@[x] <==> contains_index(picked@, x)) by {
                if x == best as int {
                    assert(picked@[picked@.len() - 1] == best);
                } else {
                    assert(chosen@[x] == old_chosen[x]);
                    if contains_index(old_picked, x) {
                        let a = choose|a: int| 0 <= a < old_picked.len() && old_picked[a] == x;
                        assert(picked@[a] == x);
                    }
                    if contains_index(picked@, x) {
                        let a = choose|a: int| 0 <= a < picked@.len() && picked@[a] == x;
                        assert(old_picked[a] == x);
                    }
                }
            }
        }
    }
    proof {
        assert forall|a: int, x: int|
            0 <= a < picked@.len() && 0 <= x < dist@.len() && !contains_index(picked@, x)
            implies lex_before(dist@, picked@[a] as int, x) by {
            assert(!chosen@[x]);
        }
    }
    Ok(picked)
}

proof fn lemma_k_nearest_prefix(d: Seq<u64>, k: int, r1: Seq<usize>, r2: Seq<usize>, a: int)
    requires
        is_k_nearest(d, k, r1),
        is_k_nearest(d, k, r2),
        0 <= a <= k,
    ensures
        forall|b: int| 0 <= b < a ==> r1[b] == r2[b],
    decreases a,
{
    if a > 0 {
        lemma_k_nearest_prefix(d, k, r1, r2, a - 1);
        let x = r1[a - 1];
        let y = r2[a - 1];
        if x != y {
            assert(lex_before(d, y as int, x as int)) by {
                if contains_index(r2, x as int) {
                    let b = choose|b: int| 0 <= b < r2.len() && r2[b] == x as int;
                    if b < a - 1 {
                        // positions below a - 1 agree, and r1 is strictly
                        // ordered, so x cannot recur at position a - 1
                        assert(r1[b] == r2[b]);
                        assert(lex_before(d, r1[b] as int, r1[a - 1] as int));
                        assert(false);
                    } else if b == a - 1 {
                        assert(false);
                    } else {
                        assert(lex_before(d, r2[a - 1] as int, r2[b] as int));
                    }
                } else {
                    assert(lex_before(d, r2[a - 1] as int, x as int));
                }
            }
            assert(lex_before(d, x as int, y as int)) by {
                if contains_index(r1, y as int) {
                    let b = choose|b: int| 0 <= b < r1.len() && r1[b] == y as int;
                    if b < a - 1 {
                        assert(r1[b] == r2[b]);
                        assert(lex_before(d, r2[b] as int, r2[a - 1] as int));
                        assert(false);
                    } else if b == a - 1 {
                        assert(false);
                    } else {
                        assert(lex_before(d, r1[a - 1] as int, r1[b] as int));
                    }
                } else {
                    assert(lex_before(d, r1[a - 1] as int, y as int));
                }
            }
            assert(false);
        }
    }
}

/// The k nearest neighbors of a query are uniquely determined: any two
/// index sequences that both satisfy `is_k_nearest` for the same keys and
/// the same `k` are equal.  Together with the contract of
/// `nearest_vectors` this pins its result down completely.
pub proof fn lemma_k_nearest_unique(d: Seq<u64>, k: int, r1: Seq<usize>, r2: Seq<usize>)
    requires
        is_k_nearest(d, k, r1),
        is_k_nearest(d, k, r2),
    ensures
        r1 == r2,
{
    lemma_k_nearest_prefix(d, k, r1, r2, k);
    assert(r1 =~= r2);
}

/// What being the k nearest spells out to: the selected indices are
/// pairwise distinct, all in range, and their distance keys are
/// non-decreasing along the selection.
pub proof fn lemma_k_nearest_properties(d: Seq<u64>, k: int, r: Seq<usize>)
    requires
        is_k_nearest(d, k, r),
    ensures
        r.len() == k,
        forall|a: int| 0 <= a < r.len() ==> (#[trigger] r[a]) < d.len(),
        forall|a: int, b: int| 0 <= a < b < r.len() ==> r[a] != r[b],
        forall|a: int, b: int|
            0 <= a < b < r.len() ==> d[#[trigger] r[a] as int] <= d[#[trigger] r[b] as int],
{
    assert forall|a: int, b: int|
        0 <= a < b < r.len() implies r[a] != r[b] && d[r[a] as int] <= d[r[b] as int] by {
        assert(lex_before(d, r[a] as int, r[b] as int));
    }
}

/// The labels of the selected training rows, in selection order.
pub open spec fn gather(labels: Seq<bool>, sel: Seq<usize>) -> Seq<bool> {
    Seq::new(sel.len(), |j: int| labels[sel[j] as int])
}

/// `p` is the label that `k`-nearest-neighbor voting assigns to a test row
/// whose distance keys to the training rows are `d`: the majority label
/// among the labels of the `k` nearest training rows.
pub open spec fn is_prediction(d: Seq<u64>, train_labels: Seq<bool>, k: int, p: bool) -> bool {
    exists|sel: Seq<usize>|
        #[trigger] is_k_nearest(d, k, sel) && p == majority_of(gather(train_labels, sel))
}

/// Number of positions where prediction and truth agree.
pub open spec fn count_matches(a: Seq<bool>, b: Seq<bool>) -> int
    decreases a.len(),
{
    if a.len() == 0 {
        0
    } else {
        count_matches(a.drop_last(), b.drop_last()) + if a.last() == b.last() {
            1int
        } else {
            0int
        }
    }
}

proof fn lemma_count_matches_step(a: Seq<bool>, b: Seq<bool>, x: bool, i: int)
    requires
        a.len() == i,
        0 <= i < b.len(),
    ensures
        count_matches(a.push(x), b.take(i + 1)) == count_matches(a, b.take(i)) + if x == b[i] {
            1int
        } else {
            0int
        },
{
    assert(a.push(x).drop_last() =~= a);
    assert(b.take(i + 1).drop_last() =~= b.take(i));
    assert(a.push(x).last() == x);
    assert(b.take(i + 1).last() == b[i]);
}

/// The accuracy of a classification run, kept as the exact fraction
/// `correct / total` (a value in `[0, 1]`, since `correct` never exceeds
/// `total`).  The division itself is left to the consumer, so the score
/// carries no rounding of its own.
#[derive(Clone, Copy, Debug, PartialEq, Eq, Structural)]
pub struct Accuracy {
    /// Number of test rows whose predicted label equals the true label.
    pub correct: usize,
    /// Total number of test rows.
    pub total: usize,
}

/// Classifies every test row by majority vote among its `num_neighbors`
/// nearest training rows and scores the predictions against the true test
/// labels.
///
/// `dists[t]` holds the distance keys from test row `t` to every training
/// row, index-aligned with `train_labels`; `test_labels` holds the true
/// label of each test row.  Returns the predicted labels, one per test
/// row in input order, and the exact accuracy fraction.  Fails with
/// `EmptyTestSet` exactly when there are no test rows, and otherwise with
/// `InsufficientNeighbors` exactly when more neighbors are requested than
/// training rows exist.
pub fn k_nearest_neighbors(
    dists: &Vec<Vec<u64>>,
    train_labels: &Vec<bool>,
    test_labels: &Vec<bool>,
    num_neighbors: usize,
) -> (result: Result<(Vec<bool>, Accuracy), KnnError>)
    requires
        num_neighbors >= 1,
        dists@.len() == test_labels@.len(),
        forall|t: int|
            0 <= t < dists@.len() ==> (#[trigger] dists@[t])@.len() == train_labels@.len(),
    ensures
        match result {
            Ok(pa) => {
                &&& test_labels@.len() > 0
                &&& num_neighbors <= train_labels@.len()
                &&& pa.0@.len() == test_labels@.len()
                &&& forall|t: int|
                    0 <= t < test_labels@.len() ==> is_prediction(
                        (#[trigger] dists@[t])@,
                        train_labels@,
                        num_neighbors as int,
                        pa.0@[t],
                    )
                &&& pa.1.total == test_labels@.len()
                &&& pa.1.correct == count_matches(pa.0@, test_labels@)
                &&& pa.1.correct <= pa.1.total
            },
            Err(e) => {
                ||| (e == KnnError::EmptyTestSet && test_labels@.len() == 0)
                ||| (e == KnnError::InsufficientNeighbors && test_labels@.len() > 0
                    && num_neighbors > train_labels@.len())
            },
        },
{
    if test_labels.len() == 0 {
        return Err(KnnError::EmptyTestSet);
    }
    if num_neighbors > train_labels.len() {
        return Err(KnnError::InsufficientNeighbors);
    }
    let t_total = test_labels.len();
    let mut predictions: Vec<bool> = Vec::new();
    let mut correct: usize = 0;
    for t in 0..t_total
        invariant
            t_total == test_labels@.len(),
            dists@.len() == test_labels@.len(),
            forall|t2: int|
                0 <= t2 < dists@.len() ==> (#[trigger] dists@[t2])@.len() == train_labels@.len(),
            1 <= num_neighbors <= train_labels@.len(),
            predictions@.len() == t,
            correct <= t,
            correct == count_matches(predictions@, test_labels@.take(t as int)),
            forall|t2: int|
                0 <= t2 < t ==> is_prediction(
                    (#[trigger] dists@[t2])@,
                    train_labels@,
                    num_neighbors as int,
                    predictions@[t2],
                ),
    {
        let row = &dists[t];
        let sel = match nearest_vectors(row, num_neighbors) {
            Ok(v) => v,
            Err(e) => {
                // unreachable: this row has one key per training row and
                // num_neighbors does not exceed the training rows
                return Err(e);
            },
        };
        let k = sel.len();
        let mut neighbor_labels: Vec<bool> = Vec::new();
        for j in 0..k
            invariant
                k == sel@.len(),
                k == num_neighbors,
                is_k_nearest(row@, k as int, sel@),
                row@.len() == train_labels@.len(),
                neighbor_labels@ == gather(train_labels@, sel@.take(j as int)),
        {
            let lab = train_labels[sel[j]];
            proof {
                assert(gather(train_labels@, sel@.take(j + 1)) =~= gather(
                    train_labels@,
                    sel@.take(j as int),
                ).push(train_labels@[sel@[j as int] as int]));
            }
            neighbor_labels.push(lab);
        }
        proof {
            assert(sel@.take(k as int) =~= sel@);
        }
        let pred = vote_classifier(&neighbor_labels);
        proof {
            assert(neighbor_labels@ == gather(train_labels@, sel@));
            assert(is_prediction(row@, train_labels@, num_neighbors as int, pred));
            lemma_count_matches_step(predictions@, test_labels@, pred, t as int);
        }
        predictions.push(pred);
        if pred == test_labels[t] {
            correct = correct + 1;
        }
    }
    proof {
        assert(test_labels@.take(t_total as int) =~= test_labels@);
    }
    Ok((predictions, Accuracy { correct, total: t_total }))
}

} // verus!

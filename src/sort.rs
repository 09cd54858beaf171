//! Ordering of proposals by weight, later declarations first on ties.
use vstd::prelude::*;
use crate::proposal::{rank, EncodingProposal, MAX_WEIGHT};

verus! {

/// The entry at index `a` of `es` comes before the one at index `b`: it has
/// the greater weight, or the same weight and was declared later.
pub open spec fn outranks(es: Seq<EncodingProposal>, a: int, b: int) -> bool {
    rank(es[a]) > rank(es[b]) || (rank(es[a]) == rank(es[b]) && a > b)
}

/// How many leading entries of `r` have a weight above `w`.
pub open spec fn leading_above(r: Seq<EncodingProposal>, w: int) -> nat
    decreases r.len(),
{
    if r.len() == 0 || rank(r[0]) <= w {
        0
    } else {
        1 + leading_above(r.drop_first(), w)
    }
}

/// The entries of `es` at the indices `ord`, in that order.
pub open spec fn pick(es: Seq<EncodingProposal>, ord: Seq<int>) -> Seq<EncodingProposal> {
    ord.map_values(|k: int| es[k])
}

/// The indices of `es` in sorted order: each entry goes in after every
/// earlier-declared entry of greater weight and before the others.
pub open spec fn rank_order(es: Seq<EncodingProposal>) -> Seq<int>
    decreases es.len(),
{
    if es.len() == 0 {
        seq![]
    } else {
        let prev = rank_order(es.drop_last());
        let last = es.len() - 1;
        prev.insert(leading_above(pick(es, prev), rank(es[last])) as int, last)
    }
}

/// `es` sorted by weight, descending, later declarations first on ties.
pub open spec fn sort_by_rank(es: Seq<EncodingProposal>) -> Seq<EncodingProposal> {
    pick(es, rank_order(es))
}

/// The index `i` occurs in `ord`.
pub open spec fn lists(ord: Seq<int>, i: int) -> bool {
    exists|k: int| 0 <= k < ord.len() && ord[k] == i
}

/// `ord` lists every index of `es` once, each before all that it outranks.
pub open spec fn is_rank_order(es: Seq<EncodingProposal>, ord: Seq<int>) -> bool {
    &&& ord.len() == es.len()
    &&& forall|k: int| 0 <= k < ord.len() ==> 0 <= #[trigger] ord[k] < es.len()
    &&& forall|i: int| 0 <= i < es.len() ==> #[trigger] lists(ord, i)
    &&& forall|k: int, l: int| 0 <= k < l < ord.len() ==> outranks(es, #[trigger] ord[k], #[trigger] ord[l])
}

proof fn lemma_leading_above(r: Seq<EncodingProposal>, w: int)
    ensures
        leading_above(r, w) <= r.len(),
        forall|k: int| 0 <= k < leading_above(r, w) ==> rank(#[trigger] r[k]) > w,
        leading_above(r, w) < r.len() ==> rank(r[leading_above(r, w) as int]) <= w,
    decreases r.len(),
{
    if r.len() > 0 && rank(r[0]) > w {
        lemma_leading_above(r.drop_first(), w);
        assert forall|k: int| 0 <= k < leading_above(r, w) implies rank(#[trigger] r[k]) > w by {
            if k > 0 {
                assert(r[k] == r.drop_first()[k - 1]);
            }
        }
    }
}

/// The sorted order is a permutation of the indices in which every entry
/// precedes the entries it outranks.
pub proof fn lemma_rank_order(es: Seq<EncodingProposal>)
    ensures
        is_rank_order(es, rank_order(es)),
    decreases es.len(),
{
    if es.len() > 0 {
        let pre = es.drop_last();
        lemma_rank_order(pre);
        let prev = rank_order(pre);
        let n = es.len() as int;
        let last = n - 1;
        let w = rank(es[last]);
        let r = pick(es, prev);
        let j = leading_above(r, w) as int;
        lemma_leading_above(r, w);
        let ord = prev.insert(j, last);
        assert(ord == rank_order(es));
        assert forall|k: int| 0 <= k < ord.len() implies 0 <= #[trigger] ord[k] < es.len() by {
            if k < j {
                assert(ord[k] == prev[k]);
            } else if k > j {
                assert(ord[k] == prev[k - 1]);
            }
        }
        assert forall|i: int| 0 <= i < es.len() implies #[trigger] lists(ord, i) by {
            if i == last {
                assert(ord[j] == i);
            } else {
                assert(lists(prev, i));
                let k = choose|k: int| 0 <= k < prev.len() && prev[k] == i;
                if k < j {
                    assert(ord[k] == i);
                } else {
                    assert(ord[k + 1] == i);
                }
            }
        }
        assert forall|k: int, l: int| 0 <= k < l < ord.len() implies outranks(es, #[trigger] ord[k], #[trigger] ord[l]) by {
            if l < j {
                assert(ord[k] == prev[k] && ord[l] == prev[l]);
                assert(outranks(pre, prev[k], prev[l]));
            } else if k > j {
                assert(ord[k] == prev[k - 1] && ord[l] == prev[l - 1]);
                assert(outranks(pre, prev[k - 1], prev[l - 1]));
            } else if k < j && l > j {
                assert(ord[k] == prev[k] && ord[l] == prev[l - 1]);
                assert(outranks(pre, prev[k], prev[l - 1]));
            } else if k == j {
                // the new entry against a later one: no greater weight there
                let p = prev[l - 1];
                assert(ord[l] == p);
                assert(r[j] == es[prev[j]]);
                assert(rank(es[prev[j]]) <= w);
                if l - 1 > j {
                    assert(outranks(pre, prev[j], prev[l - 1]));
                }
                assert(rank(es[p]) <= w);
                assert(p < last);
            } else {
                // an earlier one against the new entry: greater weight there
                assert(l == j);
                assert(ord[k] == prev[k]);
                assert(r[k] == es[prev[k]]);
            }
        }
    }
}

/// The weight an entry ranks with, in thousandths.
fn rank_of(p: &EncodingProposal) -> (r: u16)
    ensures
        r as int == rank(*p),
{
    match p.weight {
        Some(w) => w,
        None => MAX_WEIGHT,
    }
}

/// How many leading entries of `r` have a weight above `w`.
fn count_leading_above(r: &Vec<EncodingProposal>, w: u16) -> (j: usize)
    ensures
        j as nat == leading_above(r@, w as int),
{
    let n = r.len();
    let mut j: usize = 0;
    assert(r@.subrange(0, n as int) =~= r@);
    while j < n && rank_of(&r[j]) > w
        invariant
            n == r@.len(),
            j <= n,
            leading_above(r@, w as int) == j + leading_above(r@.subrange(j as int, n as int), w as int),
        decreases n - j,
    {
        assert(r@.subrange(j as int, n as int).drop_first() =~= r@.subrange(j + 1, n as int));
        j = j + 1;
    }
    j
}

/// `es` sorted by weight, descending; among equal weights the entry declared
/// later comes first.
pub fn sort_by_weight(es: &Vec<EncodingProposal>) -> (r: Vec<EncodingProposal>)
    ensures
        r@ == sort_by_rank(es@),
{
    let n = es.len();
    let mut r: Vec<EncodingProposal> = Vec::new();
    let mut i: usize = 0;
    assert(es@.take(0) =~= seq![]);
    while i < n
        invariant
            n == es@.len(),
            i <= n,
            r@ == sort_by_rank(es@.take(i as int)),
        decreases n - i,
    {
        let p = es[i];
        let j = count_leading_above(&r, rank_of(&p));
        proof {
            let pre = es@.take(i as int);
            let t = es@.take(i + 1);
            assert(t.drop_last() =~= pre);
            lemma_rank_order(pre);
            let prev = rank_order(pre);
            assert(pick(t, prev) =~= pick(pre, prev));
            lemma_leading_above(r@, rank(p));
            assert(pick(t, prev.insert(j as int, i as int)) =~= r@.insert(j as int, p));
        }
        r.insert(j, p);
        i = i + 1;
    }
    assert(es@.take(n as int) =~= es@);
    r
}

} // verus!

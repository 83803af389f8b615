//! Levenshtein edit distance over Unicode scalar values, with the
//! single-row dynamic-programming implementation and its basic laws.

use vstd::prelude::*;
use crate::chars::{str_chars, starts_with_chars};

verus! {

/// Minimum of three natural numbers.
pub open spec fn min3(x: nat, y: nat, z: nat) -> nat {
    if x <= y && x <= z {
        x
    } else if y <= z {
        y
    } else {
        z
    }
}

/// Levenshtein edit distance between two character sequences: the least
/// number of single-character insertions, deletions and substitutions
/// (cost 1 each) that turn `a` into `b`.
pub open spec fn lev(a: Seq<char>, b: Seq<char>) -> nat
    decreases a.len() + b.len(),
{
    if a.len() == 0 {
        b.len()
    } else if b.len() == 0 {
        a.len()
    } else {
        let c: nat = if a.last() == b.last() {
            0
        } else {
            1
        };
        min3(
            lev(a.drop_last(), b) + 1,
            lev(a, b.drop_last()) + 1,
            lev(a.drop_last(), b.drop_last()) + c,
        )
    }
}

/// The distance never exceeds the length of the longer string: substituting
/// the overlapping characters and inserting or deleting the rest suffices.
pub proof fn lemma_lev_bound(a: Seq<char>, b: Seq<char>)
    ensures
        lev(a, b) <= a.len() + b.len(),
        a.len() <= b.len() ==> lev(a, b) <= b.len(),
        b.len() <= a.len() ==> lev(a, b) <= a.len(),
    decreases a.len() + b.len(),
{
    if a.len() == 0 || b.len() == 0 {
    } else {
        lemma_lev_bound(a.drop_last(), b.drop_last());
    }
}

/// The distance is symmetric: edits turning `a` into `b` mirror edits
/// turning `b` into `a`.
pub proof fn lemma_lev_symmetric(a: Seq<char>, b: Seq<char>)
    ensures
        lev(a, b) == lev(b, a),
    decreases a.len() + b.len(),
{
    if a.len() == 0 || b.len() == 0 {
    } else {
        lemma_lev_symmetric(a.drop_last(), b);
        lemma_lev_symmetric(a, b.drop_last());
        lemma_lev_symmetric(a.drop_last(), b.drop_last());
    }
}

/// The distance from any string to itself is zero.
pub proof fn lemma_lev_self(a: Seq<char>)
    ensures
        lev(a, a) == 0,
    decreases a.len(),
{
    if a.len() == 0 {
    } else {
        lemma_lev_self(a.drop_last());
    }
}

fn min3_usize(x: usize, y: usize, z: usize) -> (r: usize)
    ensures
        r as nat == min3(x as nat, y as nat, z as nat),
{
    if x <= y && x <= z {
        x
    } else if y <= z {
        y
    } else {
        z
    }
}

/// Levenshtein distance over character vectors, computed with a rolling
/// single-row table of size `b.len() + 1`.
pub fn lev_chars(a: &Vec<char>, b: &Vec<char>) -> (r: usize)
    requires
        a@.len() < usize::MAX,
        b@.len() < usize::MAX,
    ensures
        r as nat == lev(a@, b@),
{
    let alen = a.len();
    let blen = b.len();
    let mut costs: Vec<usize> = Vec::new();
    let mut j: usize = 0;
    while j <= blen
        invariant
            blen == b@.len(),
            blen < usize::MAX,
            j <= blen + 1,
            costs@.len() == j,
            forall|k: int| 0 <= k < j ==> costs@[k] == k,
        decreases blen + 1 - j,
    {
        costs.push(j);
        j = j + 1;
    }
    proof {
        assert forall|k: int| 0 <= k <= blen implies costs@[k] == lev(
            a@.take(0),
            b@.take(k),
        ) by {
            assert(a@.take(0).len() == 0);
            assert(b@.take(k).len() == k);
        }
    }
    let mut i: usize = 0;
    while i < alen
        invariant
            alen == a@.len(),
            blen == b@.len(),
            alen < usize::MAX,
            blen < usize::MAX,
            i <= alen,
            costs@.len() == blen + 1,
            forall|k: int| 0 <= k <= blen ==> costs@[k] == lev(a@.take(i as int), b@.take(k)),
        decreases alen - i,
    {
        let ca = a[i];
        let mut last: usize = costs[0];
        costs.set(0, i + 1);
        proof {
            assert(a@.take(i as int + 1).len() == i + 1);
            assert(b@.take(0).len() == 0);
            assert(costs@[0] == lev(a@.take(i as int + 1), b@.take(0)));
        }
        let mut j: usize = 0;
        while j < blen
            invariant
                alen == a@.len(),
                blen == b@.len(),
                alen < usize::MAX,
                blen < usize::MAX,
                i < alen,
                ca == a@[i as int],
                j <= blen,
                costs@.len() == blen + 1,
                forall|k: int| 0 <= k <= j ==> costs@[k] == lev(a@.take(i as int + 1), b@.take(k)),
                forall|k: int|
                    j < k <= blen ==> costs@[k] == lev(a@.take(i as int), b@.take(k)),
                last as nat == lev(a@.take(i as int), b@.take(j as int)),
            decreases blen - j,
        {
            let cb = b[j];
            proof {
                lemma_lev_bound(a@.take(i as int + 1), b@.take(j as int));
                lemma_lev_bound(a@.take(i as int), b@.take(j as int + 1));
                lemma_lev_bound(a@.take(i as int), b@.take(j as int));
            }
            let old_cost = costs[j + 1];
            let sub_cost = if ca == cb {
                last
            } else {
                last + 1
            };
            let d = min3_usize(costs[j] + 1, old_cost + 1, sub_cost);
            costs.set(j + 1, d);
            proof {
                let ap = a@.take(i as int + 1);
                let bp = b@.take(j as int + 1);
                assert(ap.drop_last() =~= a@.take(i as int));
                assert(bp.drop_last() =~= b@.take(j as int));
                assert(ap.last() == a@[i as int]);
                assert(bp.last() == b@[j as int]);
                assert(d as nat == lev(ap, bp));
            }
            last = old_cost;
            j = j + 1;
        }
        i = i + 1;
    }
    proof {
        assert(a@.take(alen as int) =~= a@);
        assert(b@.take(blen as int) =~= b@);
    }
    costs[blen]
}

/// Levenshtein distance between two string slices.
///
/// The length bounds only rule out strings of the largest representable
/// size, for which the row of the table could not be allocated.
pub fn levenshtein(a: &str, b: &str) -> (r: usize)
    requires
        a@.len() < usize::MAX,
        b@.len() < usize::MAX,
    ensures
        r as nat == lev(a@, b@),
{
    let av = str_chars(a);
    let bv = str_chars(b);
    lev_chars(&av, &bv)
}

/// Does `input` plausibly denote `target`: either as a non-empty literal
/// prefix of it, or at Levenshtein distance at most 1 from it?
/// An empty input never prefix-matches — everything would — so it passes
/// only the distance test, admitting targets of at most one character.
pub fn infer_subcommand(input: &str, target: &str) -> (r: bool)
    requires
        input@.len() < usize::MAX,
        target@.len() < usize::MAX,
    ensures
        r == ((input@.len() > 0 && input@.is_prefix_of(target@)) || lev(input@, target@) <= 1),
{
    let iv = str_chars(input);
    let tv = str_chars(target);
    if iv.len() > 0 && starts_with_chars(&tv, &iv) {
        return true;
    }
    let d = lev_chars(&iv, &tv);
    d <= 1
}

} // verus!

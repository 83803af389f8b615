//! Fuzzy subcommand resolution: map a raw user token to the closest entry
//! of a command catalog, reporting the match and its edit distance.

use vstd::prelude::*;
use crate::chars::{str_chars, starts_with_chars};
use crate::distance::{lev, lev_chars, lemma_lev_bound};

verus! {

/// The distance charged to catalog entry `c` for `input`: zero when a
/// non-empty `input` is a literal prefix of `c` (the prefix short-circuit),
/// the Levenshtein distance otherwise.
pub open spec fn entry_distance(input: Seq<char>, c: Seq<char>) -> nat {
    if input.len() > 0 && input.is_prefix_of(c) {
        0
    } else {
        lev(input, c)
    }
}

/// Index of the best catalog entry among the first `catalog.len()` entries:
/// the one with the least `entry_distance`, ties resolved to the entry seen
/// first in catalog order.
pub open spec fn best_index(input: Seq<char>, catalog: Seq<Seq<char>>) -> int
    decreases catalog.len(),
{
    if catalog.len() <= 1 {
        0
    } else {
        let prev = best_index(input, catalog.drop_last());
        if entry_distance(input, catalog.last()) < entry_distance(input, catalog[prev]) {
            catalog.len() - 1
        } else {
            prev
        }
    }
}

/// The best index is in range and attains the least distance over the catalog.
pub proof fn lemma_best_index_min(input: Seq<char>, catalog: Seq<Seq<char>>)
    requires
        catalog.len() > 0,
    ensures
        0 <= best_index(input, catalog) < catalog.len(),
        forall|k: int|
            0 <= k < catalog.len() ==> entry_distance(input, catalog[best_index(input, catalog)])
                <= entry_distance(input, #[trigger] catalog[k]),
        forall|k: int|
            0 <= k < best_index(input, catalog) ==> entry_distance(
                input,
                catalog[best_index(input, catalog)],
            ) < entry_distance(input, #[trigger] catalog[k]),
    decreases catalog.len(),
{
    if catalog.len() <= 1 {
    } else {
        lemma_best_index_min(input, catalog.drop_last());
        assert(forall|k: int|
            0 <= k < catalog.len() - 1 ==> catalog.drop_last()[k] == catalog[k]);
    }
}

/// When a non-empty `input` is a prefix of some catalog entry, the best
/// entry is at distance zero, whatever its extra suffix length.
pub proof fn lemma_prefix_short_circuit(input: Seq<char>, catalog: Seq<Seq<char>>, i: int)
    requires
        0 <= i < catalog.len(),
        input.len() > 0,
        input.is_prefix_of(catalog[i]),
    ensures
        entry_distance(input, catalog[best_index(input, catalog)]) == 0,
{
    lemma_best_index_min(input, catalog);
    assert(entry_distance(input, catalog[i]) == 0);
}

/// Outcome of resolving a token against a command catalog.
pub struct MatchResult {
    /// The closest catalog entry, absent only for an empty catalog.
    pub matched_command: Option<String>,
    /// The distance charged to that entry, `usize::MAX` for an empty catalog.
    pub edit_distance: usize,
}

/// Resolve `input` against `catalog`: return the entry with the least
/// `entry_distance` (ties to the first such entry) together with that
/// distance. Never fails; absence of a good match shows only in the
/// returned distance.
pub fn resolve(input: &str, catalog: &Vec<String>) -> (r: MatchResult)
    requires
        input@.len() < usize::MAX,
        forall|k: int| 0 <= k < catalog@.len() ==> #[trigger] catalog@[k]@.len() < usize::MAX,
    ensures
        catalog@.len() == 0 ==> r.matched_command is None && r.edit_distance == usize::MAX,
        catalog@.len() > 0 ==> {
            let bi = best_index(input@, catalog.deep_view());
            &&& r.matched_command matches Some(c) && c@ == catalog@[bi]@
            &&& r.edit_distance as nat == entry_distance(input@, catalog@[bi]@)
            &&& forall|k: int|
                0 <= k < catalog@.len() ==> r.edit_distance as nat <= entry_distance(
                    input@,
                    #[trigger] catalog@[k]@,
                )
        },
{
    let iv = str_chars(input);
    let ghost cat = catalog.deep_view();
    proof {
        assert(cat.len() == catalog@.len());
        assert(forall|k: int| 0 <= k < cat.len() ==> cat[k] == #[trigger] catalog@[k]@);
    }
    let mut best: Option<String> = None;
    let mut best_dist: usize = usize::MAX;
    let mut idx: usize = 0;
    while idx < catalog.len()
        invariant
            input@.len() < usize::MAX,
            forall|k: int| 0 <= k < catalog@.len() ==> #[trigger] catalog@[k]@.len() < usize::MAX,
            iv@ == input@,
            cat == catalog.deep_view(),
            cat.len() == catalog@.len(),
            forall|k: int| 0 <= k < cat.len() ==> cat[k] == #[trigger] catalog@[k]@,
            idx <= catalog@.len(),
            idx == 0 ==> best is None && best_dist == usize::MAX,
            idx > 0 ==> {
                let bi = best_index(input@, cat.take(idx as int));
                &&& best matches Some(c) && c@ == cat[bi]
                &&& best_dist as nat == entry_distance(input@, cat[bi])
            },
        decreases catalog@.len() - idx,
    {
        let entry = &catalog[idx];
        let ev = str_chars(entry.as_str());
        let d: usize = if iv.len() > 0 && starts_with_chars(&ev, &iv) {
            0
        } else {
            proof {
                lemma_lev_bound(iv@, ev@);
            }
            lev_chars(&iv, &ev)
        };
        proof {
            assert(d as nat == entry_distance(input@, cat[idx as int]));
        }
        if d < best_dist {
            best = Some(entry.clone());
            best_dist = d;
            proof {
                let t = cat.take(idx as int + 1);
                assert(t.drop_last() =~= cat.take(idx as int));
                assert(t.last() == cat[idx as int]);
                if idx > 0 {
                    lemma_best_index_min(input@, cat.take(idx as int));
                    assert(best_index(input@, t) == idx as int);
                }
            }
        } else {
            proof {
                let t = cat.take(idx as int + 1);
                assert(t.drop_last() =~= cat.take(idx as int));
                assert(t.last() == cat[idx as int]);
                assert(idx > 0);
                lemma_best_index_min(input@, cat.take(idx as int));
                assert(best_index(input@, t) == best_index(input@, cat.take(idx as int)));
            }
        }
        idx = idx + 1;
    }
    proof {
        if catalog@.len() > 0 {
            assert(cat.take(cat.len() as int) =~= cat);
            lemma_best_index_min(input@, cat);
        }
    }
    MatchResult { matched_command: best, edit_distance: best_dist }
}

/// What the dispatcher should do with a resolved token.
#[derive(PartialEq, Eq, Structural, Clone, Copy, Debug)]
pub enum ResolveAction {
    /// Distance above the threshold: the token is not recognized; forward it
    /// unmodified to the external tool.
    Forward,
    /// The token names the matched command exactly: dispatch silently.
    DispatchSilently,
    /// A near match: dispatch to the matched command, surfacing a notice
    /// that names both the typed token and the resolved command.
    DispatchWithNotice,
}

/// The caller-level policy layered on `resolve`, with threshold 3: forward
/// unrecognized tokens verbatim, dispatch exact matches silently, and
/// dispatch near matches with a notice.
pub fn resolve_action(input: &str, matched: &String, edit_distance: usize) -> (r: ResolveAction)
    ensures
        edit_distance > 3 ==> r == ResolveAction::Forward,
        edit_distance <= 3 && input@ == matched@ ==> r == ResolveAction::DispatchSilently,
        edit_distance <= 3 && input@ != matched@ ==> r == ResolveAction::DispatchWithNotice,
{
    if edit_distance > 3 {
        ResolveAction::Forward
    } else {
        let iv = str_chars(input);
        if crate::chars::chars_eq_str(&iv, matched.as_str()) {
            ResolveAction::DispatchSilently
        } else {
            ResolveAction::DispatchWithNotice
        }
    }
}

} // verus!

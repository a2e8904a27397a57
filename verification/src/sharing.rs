//! How many hashes a proof needs: one for each level of a lone target, and
//! none twice where two targets share a path.

use crate::gindex::{is_ancestor_or_self, is_leaf_index, spec_sibling};
use crate::multiproof::{lemma_ancestor_le, on_target_path, proof_index_set};
use vstd::arithmetic::power2::{lemma2_to64, lemma_pow2_pos, lemma_pow2_unfold, pow2};
use vstd::prelude::*;

verus! {

/// The proof indices of a lone target are those of its parent and, besides,
/// the target's own sibling.
pub proof fn lemma_lone_target_step(x: int)
    requires
        2 <= x,
    ensures
        proof_index_set(set![x]) == proof_index_set(set![x / 2]).insert(spec_sibling(x)),
        !proof_index_set(set![x / 2]).contains(spec_sibling(x)),
{
    let here = set![x];
    let above = set![x / 2];
    let s = spec_sibling(x);
    assert(here.contains(x));
    assert(above.contains(x / 2));
    assert(is_ancestor_or_self(x, x));
    assert forall|p: int| proof_index_set(here).contains(p) <==> proof_index_set(above).insert(
        s,
    ).contains(p) by {
        let q = spec_sibling(p);
        if proof_index_set(here).contains(p) {
            assert(is_ancestor_or_self(q, x));
            if q != x {
                assert(is_ancestor_or_self(q, x / 2));
                if is_ancestor_or_self(p, x / 2) {
                    lemma_ancestor_le(p, x / 2);
                    assert(is_ancestor_or_self(p, x));
                }
            }
        }
        if proof_index_set(above).contains(p) {
            assert(is_ancestor_or_self(q, x / 2));
            lemma_ancestor_le(q, x / 2);
            assert(is_ancestor_or_self(q, x));
            if is_ancestor_or_self(p, x) {
                if p != x {
                    assert(is_ancestor_or_self(p, x / 2));
                }
                assert(p == x);
            }
        }
        if p == s {
            assert(spec_sibling(s) == x);
            if is_ancestor_or_self(s, x) {
                assert(is_ancestor_or_self(s, x / 2));
                lemma_ancestor_le(s, x / 2);
            }
        }
    }
    assert(proof_index_set(here) =~= proof_index_set(above).insert(s));
    if proof_index_set(above).contains(s) {
        assert(is_ancestor_or_self(x, x / 2));
        lemma_ancestor_le(x, x / 2);
    }
}

/// A lone target of level `level` needs exactly `level` hashes.
pub proof fn lemma_lone_target_count(x: int, level: nat)
    requires
        pow2(level) <= x < pow2(level + 1),
    ensures
        proof_index_set(set![x]).finite(),
        proof_index_set(set![x]).len() == level,
    decreases level,
{
    lemma2_to64();
    if level == 0 {
        assert forall|p: int| !proof_index_set(set![x]).contains(p) by {
            if proof_index_set(set![x]).contains(p) {
                let q = spec_sibling(p);
                assert(is_ancestor_or_self(q, 1));
            }
        }
        assert(proof_index_set(set![x]) =~= Set::<int>::empty());
    } else {
        lemma_pow2_unfold(level);
        lemma_pow2_unfold(level + 1);
        lemma_pow2_pos((level - 1) as nat);
        lemma_lone_target_count(x / 2, (level - 1) as nat);
        lemma_lone_target_step(x);
    }
}

/// Two targets that are siblings need no hash for each other and share the
/// rest: their proof indices are those of their parent alone.
pub proof fn lemma_sibling_targets_share(t: int)
    requires
        2 <= t,
    ensures
        proof_index_set(set![t, spec_sibling(t)]) == proof_index_set(set![t / 2]),
{
    let s = spec_sibling(t);
    let pair = set![t, s];
    let above = set![t / 2];
    assert(pair.contains(t) && pair.contains(s));
    assert(above.contains(t / 2));
    assert(s / 2 == t / 2);
    assert(is_ancestor_or_self(t, t));
    assert(is_ancestor_or_self(s, s));
    assert forall|a: int| on_target_path(pair, a) <==> (a == t || a == s || on_target_path(
        above,
        a,
    )) by {
        if on_target_path(pair, a) {
            let u = choose|u: int| pair.contains(u) && #[trigger] is_ancestor_or_self(a, u);
            if a != u {
                assert(is_ancestor_or_self(a, u / 2));
            }
        }
        if on_target_path(above, a) {
            assert(is_ancestor_or_self(a, t / 2));
            lemma_ancestor_le(a, t / 2);
            assert(is_ancestor_or_self(a, t));
        }
    }
    assert forall|p: int| proof_index_set(pair).contains(p) <==> proof_index_set(above).contains(
        p,
    ) by {
        let q = spec_sibling(p);
        assert(spec_sibling(s) == t);
        if on_target_path(above, t) {
            lemma_ancestor_le(t, t / 2);
        }
        if on_target_path(above, s) {
            lemma_ancestor_le(s, t / 2);
        }
    }
    assert(proof_index_set(pair) =~= proof_index_set(above));
}

/// Two sibling leaves of a tree of depth `depth` need `depth - 1` hashes
/// together, where each alone needs `depth`.
pub proof fn lemma_sibling_targets_count(t: int, depth: nat)
    requires
        1 <= depth,
        is_leaf_index(t, depth),
    ensures
        proof_index_set(set![t, spec_sibling(t)]).finite(),
        proof_index_set(set![t, spec_sibling(t)]).len() == depth - 1,
        proof_index_set(set![t]).len() == depth,
{
    lemma_pow2_unfold(depth);
    lemma_pow2_unfold(depth + 1);
    lemma_pow2_pos((depth - 1) as nat);
    lemma_sibling_targets_share(t);
    lemma_lone_target_count(t / 2, (depth - 1) as nat);
    lemma_lone_target_count(t, depth);
}

} // verus!

//! Verification of a multiproof against a root.

use crate::gindex::{
    is_ancestor_or_self, is_leaf_index, on_path_to_root, pow2_u64, sibling, spec_sibling,
    GeneralizedIndex,
};
use crate::hash::{hash_eq, hash_pair, spec_hash_pair, Hash32};
use crate::multiproof::{
    all_leaves, check_leaves, index_set, lemma_ancestor_le, on_target_path, prefix_has,
    proof_index_set, strictly_ascending, Multiproof,
};
use crate::tree::hashes_view;
use vstd::arithmetic::power2::{
    lemma2_to64, lemma2_to64_rest, lemma_pow2_pos, lemma_pow2_strictly_increases,
    lemma_pow2_unfold, pow2,
};
use vstd::prelude::*;

verus! {

/// No index occurs twice.
pub open spec fn distinct(s: Seq<u64>) -> bool {
    forall|a: int, b: int| 0 <= a < b < s.len() ==> s[a] != s[b]
}

/// A position at which `s` holds `x`.
pub open spec fn position_of(s: Seq<u64>, x: int) -> int {
    choose|k: int| 0 <= k < s.len() && #[trigger] s[k] == x
}

/// The value that stands beside index `x`, if `indices` holds `x`.
pub open spec fn entry_value(indices: Seq<u64>, values: Seq<Seq<u8>>, x: int) -> Option<Seq<u8>> {
    if prefix_has(indices, indices.len() as int, x) {
        Some(values[position_of(indices, x)])
    } else {
        None
    }
}

/// The hash known for node `x` before anything is computed: the claimed
/// value of a target, else the proof's hash for that node.
pub open spec fn known_value(
    targets: Seq<u64>,
    claimed: Seq<Seq<u8>>,
    indices: Seq<u64>,
    hashes: Seq<Seq<u8>>,
    x: int,
) -> Option<Seq<u8>> {
    match entry_value(targets, claimed, x) {
        Some(v) => Some(v),
        None => entry_value(indices, hashes, x),
    }
}

/// The hash of node `i` as recomputed from the claimed values and the
/// proof: the known value where there is one, else the hash of the two
/// recomputed children; nothing where a leaf is unknown.
pub open spec fn reconstruct(
    targets: Seq<u64>,
    claimed: Seq<Seq<u8>>,
    indices: Seq<u64>,
    hashes: Seq<Seq<u8>>,
    depth: nat,
    i: int,
) -> Option<Seq<u8>>
    decreases pow2(depth + 1) - i,
    when i >= 1
    via reconstruct_terminates
{
    match known_value(targets, claimed, indices, hashes, i) {
        Some(v) => Some(v),
        None => if i >= pow2(depth) {
            None
        } else {
            match (
                reconstruct(targets, claimed, indices, hashes, depth, 2 * i),
                reconstruct(targets, claimed, indices, hashes, depth, 2 * i + 1),
            ) {
                (Some(l), Some(r)) => Some(spec_hash_pair(l, r)),
                _ => None,
            }
        },
    }
}

#[via_fn]
proof fn reconstruct_terminates(
    targets: Seq<u64>,
    claimed: Seq<Seq<u8>>,
    indices: Seq<u64>,
    hashes: Seq<Seq<u8>>,
    depth: nat,
    i: int,
) {
    lemma_pow2_unfold(depth + 1);
}

/// When a proof is accepted: the targets are distinct leaves, at least one;
/// the proof holds one hash for each proof index of those targets, the
/// indices in ascending order and no other; and the root recomputed from the
/// claimed values and the proof is `root`.
pub open spec fn verify_spec(
    root: Seq<u8>,
    targets: Seq<u64>,
    claimed: Seq<Seq<u8>>,
    indices: Seq<u64>,
    hashes: Seq<Seq<u8>>,
    depth: nat,
) -> bool {
    &&& targets.len() > 0
    &&& claimed.len() == targets.len()
    &&& all_leaves(targets, depth)
    &&& distinct(targets)
    &&& hashes.len() == indices.len()
    &&& strictly_ascending(indices)
    &&& index_set(indices) == proof_index_set(index_set(targets))
    &&& reconstruct(targets, claimed, indices, hashes, depth, 1) == Some(root)
}

/// The indices of a list of claims, in order.
pub open spec fn claimed_indices(claims: Seq<(u64, Hash32)>) -> Seq<u64> {
    Seq::new(claims.len(), |k: int| claims[k].0)
}

/// The values of a list of claims, in order.
pub open spec fn claimed_values(claims: Seq<(u64, Hash32)>) -> Seq<Seq<u8>> {
    Seq::new(claims.len(), |k: int| claims[k].1@)
}

/// The first position at which `indices` holds `x`.
fn find(indices: &Vec<GeneralizedIndex>, x: GeneralizedIndex) -> (out: Option<usize>)
    ensures
        match out {
            Some(k) => k < indices@.len() && indices@[k as int] == x,
            None => !prefix_has(indices@, indices@.len() as int, x as int),
        },
{
    let mut k: usize = 0;
    while k < indices.len()
        invariant
            k <= indices@.len(),
            forall|j: int| 0 <= j < k ==> indices@[j] != x,
        decreases indices@.len() - k,
    {
        if indices[k] == x {
            return Some(k);
        }
        k = k + 1;
    }
    None
}

/// Whether node `a` is on the path of some target.
fn covers(targets: &Vec<GeneralizedIndex>, a: GeneralizedIndex) -> (out: bool)
    ensures
        out == on_target_path(index_set(targets@), a as int),
{
    let mut k: usize = 0;
    while k < targets.len()
        invariant
            k <= targets@.len(),
            forall|j: int|
                0 <= j < k ==> !is_ancestor_or_self(a as int, #[trigger] targets@[j] as int),
        decreases targets@.len() - k,
    {
        if on_path_to_root(a, targets[k]) {
            proof {
                assert(index_set(targets@).contains(targets@[k as int] as int));
            }
            return true;
        }
        k = k + 1;
    }
    proof {
        if on_target_path(index_set(targets@), a as int) {
            let t = choose|t: int|
                index_set(targets@).contains(t) && #[trigger] is_ancestor_or_self(a as int, t);
            let w = choose|w: int| 0 <= w < targets@.len() && #[trigger] targets@[w] == t;
            assert(!is_ancestor_or_self(a as int, targets@[w] as int));
        }
    }
    false
}

/// Whether no index occurs twice.
fn all_distinct(s: &Vec<GeneralizedIndex>) -> (out: bool)
    ensures
        out == distinct(s@),
{
    let mut b: usize = 0;
    while b < s.len()
        invariant
            b <= s@.len(),
            forall|x: int, y: int| 0 <= x < y < b ==> s@[x] != s@[y],
        decreases s@.len() - b,
    {
        let mut a: usize = 0;
        while a < b
            invariant
                a <= b < s@.len(),
                forall|x: int| 0 <= x < a ==> s@[x] != s@[b as int],
            decreases b - a,
        {
            if s[a] == s[b] {
                return false;
            }
            a = a + 1;
        }
        b = b + 1;
    }
    true
}

/// Whether each index is above the one before it.
fn is_ascending(s: &Vec<GeneralizedIndex>) -> (out: bool)
    ensures
        out == strictly_ascending(s@),
{
    let mut k: usize = 1;
    while k < s.len()
        invariant
            1 <= k,
            forall|x: int, y: int| 0 <= x < y < k && y < s@.len() ==> s@[x] < s@[y],
        decreases s@.len() - k,
    {
        if s[k - 1] >= s[k] {
            return false;
        }
        k = k + 1;
    }
    true
}

/// Whether every index of the proof is a proof index of the targets.
fn holds_only_needed(targets: &Vec<GeneralizedIndex>, indices: &Vec<GeneralizedIndex>) -> (out:
    bool)
    ensures
        out == index_set(indices@).subset_of(proof_index_set(index_set(targets@))),
{
    let ghost goal = index_set(targets@);
    let mut k: usize = 0;
    while k < indices.len()
        invariant
            k <= indices@.len(),
            goal == index_set(targets@),
            forall|j: int|
                0 <= j < k ==> proof_index_set(goal).contains(#[trigger] indices@[j] as int),
        decreases indices@.len() - k,
    {
        let q: u64 = indices[k];
        if q < 2 || covers(targets, q) || !covers(targets, sibling(q)) {
            proof {
                assert(index_set(indices@).contains(indices@[k as int] as int));
            }
            return false;
        }
        k = k + 1;
    }
    proof {
        assert forall|q: int| index_set(indices@).contains(q) implies proof_index_set(
            goal,
        ).contains(q) by {
            let w = choose|w: int| 0 <= w < indices@.len() && #[trigger] indices@[w] == q;
            assert(proof_index_set(goal).contains(indices@[w] as int));
        }
    }
    true
}

/// The sibling of node `a` is accounted for: it is on a target's path, or
/// the proof holds it.
spec fn sibling_settled(goal: Set<int>, indices: Seq<u64>, a: int) -> bool {
    on_target_path(goal, spec_sibling(a)) || prefix_has(
        indices,
        indices.len() as int,
        spec_sibling(a),
    )
}

/// Whether the proof holds every proof index of the targets.
fn holds_all_needed(targets: &Vec<GeneralizedIndex>, indices: &Vec<GeneralizedIndex>) -> (out:
    bool)
    requires
        forall|k: int| 0 <= k < targets@.len() ==> 1 <= #[trigger] targets@[k],
    ensures
        out == proof_index_set(index_set(targets@)).subset_of(index_set(indices@)),
{
    let ghost goal = index_set(targets@);
    let mut k: usize = 0;
    while k < targets.len()
        invariant
            k <= targets@.len(),
            goal == index_set(targets@),
            forall|k: int| 0 <= k < targets@.len() ==> 1 <= #[trigger] targets@[k],
            forall|j: int, a: int|
                0 <= j < k && 2 <= a && #[trigger] is_ancestor_or_self(a, targets@[j] as int)
                    ==> sibling_settled(goal, indices@, a),
        decreases targets@.len() - k,
    {
        let t: u64 = targets[k];
        let mut cur: u64 = t;
        proof {
            assert(goal.contains(targets@[k as int] as int));
            assert(is_ancestor_or_self(t as int, t as int));
        }
        while cur > 1
            invariant
                1 <= cur <= t,
                goal == index_set(targets@),
                goal.contains(t as int),
                is_ancestor_or_self(cur as int, t as int),
                forall|a: int|
                    2 <= a && #[trigger] is_ancestor_or_self(a, t as int) && !is_ancestor_or_self(
                        a,
                        cur as int,
                    ) ==> sibling_settled(goal, indices@, a),
            decreases cur,
        {
            let other: u64 = sibling(cur);
            if !covers(targets, other) {
                match find(indices, other) {
                    Some(_) => {},
                    None => {
                        proof {
                            assert(spec_sibling(other as int) == cur);
                            assert(proof_index_set(goal).contains(other as int));
                            assert(!index_set(indices@).contains(other as int));
                        }
                        return false;
                    },
                }
            }
            proof {
                assert(sibling_settled(goal, indices@, cur as int)) by {
                    if !on_target_path(goal, other as int) {
                        let w = choose|w: int|
                            0 <= w < indices@.len() && #[trigger] indices@[w] == other;
                        assert(prefix_has(indices@, indices@.len() as int, other as int));
                    }
                }
                lemma_ancestor_step(cur as int, t as int);
                assert forall|a: int|
                    2 <= a && #[trigger] is_ancestor_or_self(a, t as int) && !is_ancestor_or_self(
                        a,
                        cur as int / 2,
                    ) implies sibling_settled(goal, indices@, a) by {
                    if is_ancestor_or_self(a, cur as int) {
                        assert(a == cur);
                    }
                }
            }
            cur = cur / 2;
        }
        proof {
            assert forall|j: int, a: int|
                0 <= j < k + 1 && 2 <= a && #[trigger] is_ancestor_or_self(
                    a,
                    targets@[j] as int,
                ) implies sibling_settled(goal, indices@, a) by {
                if j == k {
                    assert(!is_ancestor_or_self(a, 1));
                }
            }
        }
        k = k + 1;
    }
    proof {
        assert forall|p: int| proof_index_set(goal).contains(p) implies index_set(
            indices@,
        ).contains(p) by {
            let a = spec_sibling(p);
            let t = choose|t: int| goal.contains(t) && #[trigger] is_ancestor_or_self(a, t);
            let j = choose|j: int| 0 <= j < targets@.len() && #[trigger] targets@[j] == t;
            assert(is_ancestor_or_self(a, targets@[j] as int));
            assert(sibling_settled(goal, indices@, a));
            assert(spec_sibling(a) == p);
        }
    }
    true
}

/// The parent of a node on the path of `t` is on that path too.
pub proof fn lemma_ancestor_step(a: int, t: int)
    requires
        2 <= a,
        is_ancestor_or_self(a, t),
    ensures
        is_ancestor_or_self(a / 2, t),
    decreases t,
{
    if t > a {
        lemma_ancestor_step(a, t / 2);
        lemma_ancestor_le(a, t / 2);
    } else {
        assert(is_ancestor_or_self(a / 2, a / 2));
    }
}

/// Where `s` holds `x` once, `position_of` finds that place.
proof fn lemma_position_unique(s: Seq<u64>, k: int)
    requires
        distinct(s),
        0 <= k < s.len(),
    ensures
        prefix_has(s, s.len() as int, s[k] as int),
        position_of(s, s[k] as int) == k,
{
    let w = position_of(s, s[k] as int);
    assert(0 <= w < s.len() && s[w] == s[k]);
    if w < k {
        assert(s[w] != s[k]);
    } else if k < w {
        assert(s[k] != s[w]);
    }
}

/// The hash of node `i`, recomputed from the claimed values and the proof.
fn rebuild(
    targets: &Vec<GeneralizedIndex>,
    claimed: &Vec<Hash32>,
    proof: &Multiproof,
    depth: u32,
    i: GeneralizedIndex,
) -> (out: Option<Hash32>)
    requires
        depth <= 63,
        1 <= i < pow2(depth as nat + 1),
        claimed@.len() == targets@.len(),
        proof.hashes@.len() == proof.indices@.len(),
        distinct(targets@),
        distinct(proof.indices@),
    ensures
        match out {
            Some(h) => reconstruct(
                targets@,
                hashes_view(claimed@),
                proof.indices@,
                hashes_view(proof.hashes@),
                depth as nat,
                i as int,
            ) == Some(h@),
            None => reconstruct(
                targets@,
                hashes_view(claimed@),
                proof.indices@,
                hashes_view(proof.hashes@),
                depth as nat,
                i as int,
            ) is None,
        },
    decreases pow2(depth as nat + 1) - i,
{
    match find(targets, i) {
        Some(k) => {
            proof {
                lemma_position_unique(targets@, k as int);
            }
            return Some(claimed[k]);
        },
        None => {},
    }
    match find(&proof.indices, i) {
        Some(k) => {
            proof {
                lemma_position_unique(proof.indices@, k as int);
            }
            return Some(proof.hashes[k]);
        },
        None => {},
    }
    proof {
        lemma_pow2_unfold(depth as nat + 1);
        lemma2_to64();
        lemma2_to64_rest();
        if depth < 63 {
            lemma_pow2_strictly_increases(depth as nat, 63);
        }
    }
    if i >= pow2_u64(depth) {
        return None;
    }
    let left = match rebuild(targets, claimed, proof, depth, 2 * i) {
        Some(h) => h,
        None => {
            return None;
        },
    };
    let right = match rebuild(targets, claimed, proof, depth, 2 * i + 1) {
        Some(h) => h,
        None => {
            return None;
        },
    };
    Some(hash_pair(&left, &right))
}

/// Checks a multiproof: recomputes every hash on the way from the claimed
/// leaves to the root and compares the result with `root`.
///
/// `claimed` holds the targets with their claimed values. The answer is
/// `false` for an empty or repeated target, a target that is no leaf of a
/// tree of this depth, a proof whose indices are not exactly the proof
/// indices of the targets in ascending order, and a recomputed root other
/// than `root`.
pub fn verify(
    root: &Hash32,
    claimed: &Vec<(GeneralizedIndex, Hash32)>,
    proof: &Multiproof,
    depth: u32,
) -> (out: bool)
    ensures
        out == verify_spec(
            root@,
            claimed_indices(claimed@),
            claimed_values(claimed@),
            proof.indices@,
            hashes_view(proof.hashes@),
            depth as nat,
        ),
{
    if claimed.len() == 0 {
        return false;
    }
    let mut targets: Vec<GeneralizedIndex> = Vec::new();
    let mut values: Vec<Hash32> = Vec::new();
    let mut k: usize = 0;
    while k < claimed.len()
        invariant
            k <= claimed@.len(),
            targets@.len() == k,
            values@.len() == k,
            forall|j: int| 0 <= j < k ==> targets@[j] == claimed@[j].0,
            forall|j: int| 0 <= j < k ==> values@[j] == claimed@[j].1,
        decreases claimed@.len() - k,
    {
        targets.push(claimed[k].0);
        values.push(claimed[k].1);
        k = k + 1;
    }
    assert(targets@ =~= claimed_indices(claimed@));
    assert(hashes_view(values@) =~= claimed_values(claimed@));
    if !check_leaves(&targets, depth) {
        return false;
    }
    proof {
        assert(is_leaf_index(targets@[0] as int, depth as nat));
        lemma2_to64();
        lemma2_to64_rest();
        if depth > 64 {
            lemma_pow2_strictly_increases(64, depth as nat);
        }
        assert(depth <= 63);
        lemma_pow2_pos(depth as nat);
        lemma_pow2_strictly_increases(0, depth as nat + 1);
        assert forall|k: int| 0 <= k < targets@.len() implies 1 <= #[trigger] targets@[k] by {
            assert(is_leaf_index(targets@[k] as int, depth as nat));
        }
    }
    if !all_distinct(&targets) {
        return false;
    }
    if proof.hashes.len() != proof.indices.len() {
        return false;
    }
    if !is_ascending(&proof.indices) {
        return false;
    }
    if !holds_only_needed(&targets, &proof.indices) {
        return false;
    }
    if !holds_all_needed(&targets, &proof.indices) {
        return false;
    }
    assert(index_set(proof.indices@) =~= proof_index_set(index_set(targets@)));
    match rebuild(&targets, &values, proof, depth, 1) {
        Some(h) => hash_eq(&h, root),
        None => false,
    }
}

} // verus!

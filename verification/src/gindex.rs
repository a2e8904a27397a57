//! Arithmetic on generalized indices: the root of a complete binary tree is
//! node 1, and the children of node `i` are `2i` and `2i + 1`.

use vstd::arithmetic::power2::{
    lemma2_to64, lemma2_to64_rest, lemma_pow2_pos, lemma_pow2_strictly_increases,
    lemma_pow2_unfold, pow2,
};
use vstd::prelude::*;

verus! {

/// The address of a tree node.
pub type GeneralizedIndex = u64;

/// The deepest tree this library builds: all `2^(MAX_DEPTH + 1)` node
/// addresses fit in a `usize` on every platform.
pub const MAX_DEPTH: u32 = 30;

/// The node above node `i`.
pub open spec fn spec_parent(i: int) -> int {
    i / 2
}

/// The first of the two nodes below node `i`.
pub open spec fn spec_left_child(i: int) -> int {
    2 * i
}

/// The second of the two nodes below node `i`.
pub open spec fn spec_right_child(i: int) -> int {
    2 * i + 1
}

/// The other child of the same parent (`i xor 1`).
pub open spec fn spec_sibling(i: int) -> int {
    if i % 2 == 0 {
        i + 1
    } else {
        i - 1
    }
}

/// `i` addresses a node of a tree of the given depth.
pub open spec fn in_tree(i: int, depth: nat) -> bool {
    1 <= i < pow2(depth + 1)
}

/// `i` addresses a leaf of a tree of the given depth.
pub open spec fn is_leaf_index(i: int, depth: nat) -> bool {
    pow2(depth) <= i < pow2(depth + 1)
}

/// `a` lies on the path from node `i` up to the root, `i` itself included.
pub open spec fn is_ancestor_or_self(a: int, i: int) -> bool
    decreases i,
{
    if a < 1 || i < a {
        false
    } else if i == a {
        true
    } else {
        is_ancestor_or_self(a, i / 2)
    }
}

/// The number of steps from node `i` up to the root.
pub open spec fn spec_level(i: int) -> nat
    decreases i,
{
    if i <= 1 {
        0
    } else {
        1 + spec_level(i / 2)
    }
}

/// A node's level is the exponent of the power of two at or below its index.
pub proof fn lemma_level_bounds(i: int)
    requires
        1 <= i,
    ensures
        pow2(spec_level(i)) <= i < pow2(spec_level(i) + 1),
    decreases i,
{
    lemma2_to64();
    if i > 1 {
        lemma_level_bounds(i / 2);
        lemma_pow2_unfold(spec_level(i));
        lemma_pow2_unfold(spec_level(i) + 1);
    }
}

/// The nodes of level `d` are those from `2^d` up to `2^(d+1) - 1`.
pub proof fn lemma_level_unique(i: int, d: nat)
    requires
        pow2(d) <= i < pow2(d + 1),
    ensures
        spec_level(i) == d,
{
    lemma_pow2_pos(d);
    lemma_level_bounds(i);
    let l = spec_level(i);
    if l < d {
        if l + 1 < d {
            lemma_pow2_strictly_increases(l + 1, d);
        }
    } else if l > d {
        if d + 1 < l {
            lemma_pow2_strictly_increases(d + 1, l);
        }
    }
}

/// How parent, children and sibling go together: the sibling of a node's
/// sibling is the node, siblings have one parent, a node is the parent of its
/// children, and each child is the other's sibling.
pub proof fn lemma_index_arithmetic(i: int)
    requires
        0 <= i,
    ensures
        spec_sibling(spec_sibling(i)) == i,
        spec_sibling(i) != i,
        spec_parent(spec_sibling(i)) == spec_parent(i),
        spec_parent(spec_left_child(i)) == i,
        spec_parent(spec_right_child(i)) == i,
        spec_sibling(spec_left_child(i)) == spec_right_child(i),
        spec_sibling(spec_right_child(i)) == spec_left_child(i),
        i >= 1 ==> is_ancestor_or_self(i, spec_left_child(i)) && is_ancestor_or_self(
            i,
            spec_right_child(i),
        ),
{
    if i >= 1 {
        assert(is_ancestor_or_self(i, i));
        assert(is_ancestor_or_self(i, spec_left_child(i)));
        assert(is_ancestor_or_self(i, spec_right_child(i)));
    }
}

/// `2^e` as a machine integer.
pub fn pow2_u64(e: u32) -> (out: u64)
    requires
        e < 64,
    ensures
        out == pow2(e as nat),
{
    let mut out: u64 = 1;
    let mut k: u32 = 0;
    proof {
        lemma2_to64();
    }
    while k < e
        invariant
            k <= e,
            e < 64,
            out == pow2(k as nat),
        decreases e - k,
    {
        proof {
            lemma_pow2_unfold((k + 1) as nat);
            if k + 1 < 63 {
                lemma_pow2_strictly_increases((k + 1) as nat, 63);
            }
            lemma2_to64_rest();
        }
        out = out * 2;
        k = k + 1;
    }
    out
}

/// The parent of node `i`.
pub fn parent(i: GeneralizedIndex) -> (out: GeneralizedIndex)
    ensures
        out == spec_parent(i as int),
{
    i / 2
}

/// The sibling of node `i`.
pub fn sibling(i: GeneralizedIndex) -> (out: GeneralizedIndex)
    ensures
        out == spec_sibling(i as int),
{
    assert(i ^ 1 == if i % 2 == 0 { (i + 1) as u64 } else { (i - 1) as u64 }) by (bit_vector);
    assert(i % 2 == 0 ==> i < u64::MAX);
    i ^ 1
}

/// The left child of node `i`, unless its index does not fit.
pub fn left_child(i: GeneralizedIndex) -> (out: Option<GeneralizedIndex>)
    ensures
        out == if spec_left_child(i as int) <= u64::MAX {
            Some(spec_left_child(i as int) as u64)
        } else {
            None
        },
{
    if i <= u64::MAX / 2 {
        Some(2 * i)
    } else {
        None
    }
}

/// The right child of node `i`, unless its index does not fit.
pub fn right_child(i: GeneralizedIndex) -> (out: Option<GeneralizedIndex>)
    ensures
        out == if spec_right_child(i as int) <= u64::MAX {
            Some(spec_right_child(i as int) as u64)
        } else {
            None
        },
{
    if i <= u64::MAX / 2 {
        Some(2 * i + 1)
    } else {
        None
    }
}

/// The level of node `i`: 0 for the root, and for node `i` the `d` with
/// `2^d <= i < 2^(d + 1)`.
pub fn level_of(i: GeneralizedIndex) -> (out: u32)
    ensures
        out == spec_level(i as int),
        out < 64,
        i >= 1 ==> pow2(out as nat) <= i < pow2(out as nat + 1),
{
    let mut rest: u64 = i;
    let mut out: u32 = 0;
    proof {
        lemma2_to64();
        lemma2_to64_rest();
        if i >= 1 {
            lemma_level_bounds(i as int);
        }
    }
    while rest > 1
        invariant
            spec_level(i as int) == out + spec_level(rest as int),
            rest * pow2(out as nat) <= i,
            out < 64,
        decreases rest,
    {
        proof {
            lemma_pow2_unfold((out + 1) as nat);
            assert((rest / 2) * pow2((out + 1) as nat) <= i) by (nonlinear_arith)
                requires
                    rest * pow2(out as nat) <= i,
                    pow2((out + 1) as nat) == 2 * pow2(out as nat),
            ;
            if out + 1 >= 64 {
                lemma2_to64();
                lemma_pow2_pos((out + 1) as nat);
                if out + 1 > 64 {
                    lemma_pow2_strictly_increases(64, (out + 1) as nat);
                }
                assert((rest / 2) * pow2((out + 1) as nat) >= pow2((out + 1) as nat))
                    by (nonlinear_arith)
                    requires
                        rest / 2 >= 1,
                ;
            }
        }
        rest = rest / 2;
        out = out + 1;
    }
    out
}

/// Whether `i` addresses a node of a tree of the given depth.
pub fn is_in_tree(i: GeneralizedIndex, depth: u32) -> (out: bool)
    ensures
        out == in_tree(i as int, depth as nat),
{
    proof {
        lemma2_to64();
        lemma2_to64_rest();
        if depth + 1 > 64 {
            lemma_pow2_strictly_increases(64, (depth + 1) as nat);
        }
    }
    if i < 1 {
        false
    } else if depth >= 63 {
        true
    } else {
        i < pow2_u64(depth + 1)
    }
}

/// Whether `i` addresses a leaf of a tree of the given depth.
pub fn is_leaf(i: GeneralizedIndex, depth: u32) -> (out: bool)
    ensures
        out == is_leaf_index(i as int, depth as nat),
{
    proof {
        lemma2_to64();
        lemma2_to64_rest();
        if depth > 64 {
            lemma_pow2_strictly_increases(64, depth as nat);
        }
    }
    if depth >= 64 {
        false
    } else if depth == 63 {
        i >= pow2_u64(63)
    } else {
        pow2_u64(depth) <= i && i < pow2_u64(depth + 1)
    }
}

/// Whether `a` lies on the path from node `i` to the root, `i` included.
pub fn on_path_to_root(a: GeneralizedIndex, i: GeneralizedIndex) -> (out: bool)
    ensures
        out == is_ancestor_or_self(a as int, i as int),
{
    if a < 1 {
        return false;
    }
    let mut cur: u64 = i;
    while cur > a
        invariant
            a >= 1,
            is_ancestor_or_self(a as int, i as int) == is_ancestor_or_self(a as int, cur as int),
        decreases cur,
    {
        cur = cur / 2;
    }
    cur == a
}

} // verus!

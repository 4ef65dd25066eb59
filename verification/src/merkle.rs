//! The padded binary hash tree over a sequence of leaf hashes.

use vstd::arithmetic::power2::{lemma_pow2_pos, lemma_pow2_unfold, pow2};
use vstd::prelude::*;

use crate::sha256::{hasher_finalize, hasher_new, hasher_update, sha256};

verus! {

/// The hash that fills the leaf slots no leaf stands in: the array `[0; 32]`.
pub open spec fn zero_hash() -> crate::Hash {
    vstd::array::spec_array_fill_for_copy_type::<u8, 32>(0u8)
}

/// Number of levels between the leaves and the root of the tree over `n`
/// leaves.
pub open spec fn tree_depth(n: nat) -> nat
    decreases n,
{
    if n <= 1 {
        0
    } else {
        1 + tree_depth((n + 1) / 2)
    }
}

/// Number of leaf slots of the tree over `n` leaves: the least power of two
/// that is at least `n`, and 1 where `n` is 0.
pub open spec fn tree_width(n: nat) -> nat {
    pow2(tree_depth(n))
}

/// The leaf slots of the tree over `leaves`: zero hashes first, then the
/// leaves in their order.
pub open spec fn leaf_slots(leaves: Seq<crate::Hash>) -> Seq<crate::Hash> {
    Seq::new((tree_width(leaves.len()) - leaves.len()) as nat, |i: int| zero_hash()) + leaves
}

/// The hash of two sibling nodes' parent.
pub open spec fn parent_hash(left: crate::Hash, right: crate::Hash) -> crate::Hash {
    sha256(left@ + right@)
}

/// The hash at the top of the complete binary tree over `slots`, whose number
/// is a power of two: the only slot, or the parent of the tops of the two
/// halves.
pub open spec fn subtree_root(slots: Seq<crate::Hash>) -> crate::Hash
    decreases slots.len(),
{
    if slots.len() <= 1 {
        slots[0]
    } else {
        let half = slots.len() / 2;
        parent_hash(subtree_root(slots.take(half as int)), subtree_root(slots.skip(half as int)))
    }
}

/// The root of the tree over `leaves`.
pub open spec fn merkle_root(leaves: Seq<crate::Hash>) -> crate::Hash {
    subtree_root(leaf_slots(leaves))
}

/// `tree_width(n)` is at least `n`, and it is the least such power of two: half
/// of it is less than `n` wherever `n` is 2 or more.
pub proof fn lemma_tree_width_bounds(n: nat)
    ensures
        n <= tree_width(n),
        1 <= tree_width(n),
        n >= 2 ==> tree_width(n) < 2 * n,
        n >= 2 ==> tree_depth(n) >= 1,
    decreases n,
{
    lemma_pow2_pos(tree_depth(n));
    if n <= 1 {
        assert(pow2(0) == 1) by {
            vstd::arithmetic::power2::lemma2_to64();
        }
    } else {
        let h = ((n + 1) / 2) as nat;
        lemma_tree_width_bounds(h);
        lemma_pow2_unfold(tree_depth(n));
        assert(tree_width(n) == 2 * tree_width(h));
        if h >= 2 {
            lemma_pow2_unfold(tree_depth(h));
        } else {
            assert(pow2(0) == 1) by {
                vstd::arithmetic::power2::lemma2_to64();
            }
        }
    }
}

/// A power of two that is at least `n`, and whose half is less than `n`, is
/// `tree_width(n)`.
pub proof fn lemma_tree_width_unique(n: nat, k: nat)
    requires
        n <= pow2(k),
        k >= 1 ==> pow2((k - 1) as nat) < n,
    ensures
        k == tree_depth(n),
        pow2(k) == tree_width(n),
    decreases k,
{
    lemma_pow2_pos(k);
    assert(pow2(0) == 1) by {
        vstd::arithmetic::power2::lemma2_to64();
    }
    if k == 0 {
    } else {
        lemma_pow2_unfold(k);
        let h = ((n + 1) / 2) as nat;
        let j = (k - 1) as nat;
        lemma_pow2_pos(j);
        if j >= 1 {
            lemma_pow2_unfold(j);
            lemma_pow2_pos((j - 1) as nat);
        }
        lemma_tree_width_unique(h, j);
    }
}

/// The zero hash is 32 zero bytes.
pub proof fn lemma_zero_hash()
    ensures
        zero_hash()@ == Seq::new(32, |i: int| 0u8),
{
    assert(zero_hash()@ =~= Seq::new(32, |i: int| 0u8));
}

/// The smallest trees. Over no leaf the root is the zero hash; over one leaf
/// it is that leaf; over two it is their parent; over three, a zero hash
/// stands to the left of the leaves.
pub proof fn lemma_small_trees(a: crate::Hash, b: crate::Hash, c: crate::Hash)
    ensures
        merkle_root(Seq::empty()) == zero_hash(),
        merkle_root(seq![a]) == a,
        merkle_root(seq![a, b]) == parent_hash(a, b),
        merkle_root(seq![a, b, c]) == parent_hash(
            parent_hash(zero_hash(), a),
            parent_hash(b, c),
        ),
{
    vstd::arithmetic::power2::lemma2_to64();
    reveal_with_fuel(tree_depth, 3);
    reveal_with_fuel(subtree_root, 3);
    let z = zero_hash();
    assert(leaf_slots(Seq::empty()) =~= seq![z]);
    assert(leaf_slots(seq![a]) =~= seq![a]);
    let two = seq![a, b];
    assert(leaf_slots(two) =~= two);
    assert(two.take(1) =~= seq![a]);
    assert(two.skip(1) =~= seq![b]);
    let four = seq![z, a, b, c];
    assert(leaf_slots(seq![a, b, c]) =~= four);
    assert(four.take(2) =~= seq![z, a]);
    assert(four.skip(2) =~= seq![b, c]);
    assert(seq![z, a].take(1) =~= seq![z]);
    assert(seq![z, a].skip(1) =~= seq![a]);
    assert(seq![b, c].take(1) =~= seq![b]);
    assert(seq![b, c].skip(1) =~= seq![c]);
}

/// A number of leaves that is a power of two fills the leaf slots, and the
/// root over two such halves of equal length is the parent of their roots.
pub proof fn lemma_root_of_halves(left: Seq<crate::Hash>, right: Seq<crate::Hash>, k: nat)
    requires
        left.len() == pow2(k),
        right.len() == pow2(k),
    ensures
        leaf_slots(left) == left,
        leaf_slots(right) == right,
        leaf_slots(left + right) == left + right,
        merkle_root(left + right) == parent_hash(merkle_root(left), merkle_root(right)),
{
    let both = left + right;
    lemma_pow2_pos(k);
    lemma_pow2_unfold(k + 1);
    if k >= 1 {
        lemma_pow2_unfold(k);
        lemma_pow2_pos((k - 1) as nat);
    }
    lemma_tree_width_unique(left.len(), k);
    lemma_tree_width_unique(both.len(), k + 1);
    assert(leaf_slots(left) =~= left);
    assert(leaf_slots(right) =~= right);
    assert(leaf_slots(both) =~= both);
    assert(both.take(both.len() as int / 2) =~= left);
    assert(both.skip(both.len() as int / 2) =~= right);
}

/// The tree over `n` leaves is no wider than any power of two that is at
/// least `n`.
pub proof fn lemma_tree_width_least(n: nat, k: nat)
    requires
        n <= pow2(k),
    ensures
        tree_width(n) <= pow2(k),
        tree_depth(n) <= k,
{
    let d = tree_depth(n);
    lemma_tree_width_bounds(n);
    if d > k {
        lemma_pow2_unfold(d);
        lemma_pow2_unfold(k + 1);
        if k + 1 < d {
            vstd::arithmetic::power2::lemma_pow2_strictly_increases(k + 1, d);
        }
    } else if d < k {
        vstd::arithmetic::power2::lemma_pow2_strictly_increases(d, k);
    }
}

/// The flat array of the tree over `n` leaves, which holds fewer than
/// `2 * tree_width(n)` nodes, fits the machine's addresses exactly where `n`
/// is at most a quarter of the address space.
pub proof fn lemma_tree_fits(n: nat)
    ensures
        2 * tree_width(n) <= usize::MAX <==> n <= usize::MAX / 4 + 1,
{
    vstd::arithmetic::power2::lemma2_to64();
    vstd::arithmetic::power2::lemma2_to64_rest();
    let k: nat = if usize::MAX == 0xffff_ffff {
        30
    } else {
        62
    };
    assert(usize::MAX / 4 + 1 == pow2(k));
    lemma_tree_width_bounds(n);
    if n <= pow2(k) {
        lemma_tree_width_least(n, k);
    } else {
        let d = tree_depth(n);
        if d <= k {
            if d < k {
                vstd::arithmetic::power2::lemma_pow2_strictly_increases(d, k);
            }
        } else {
            lemma_pow2_unfold(k + 1);
            if k + 1 < d {
                vstd::arithmetic::power2::lemma_pow2_strictly_increases(k + 1, d);
            }
        }
    }
}

/// The hash of node `j` where the tree over `slots` is laid out as a flat
/// array: the root at 0, the children of node `i` at `2i + 1` and `2i + 2`,
/// the slots last.
spec fn flat_node(slots: Seq<crate::Hash>, j: nat) -> crate::Hash
    decreases 2 * slots.len() - j,
{
    if j + 1 >= slots.len() {
        slots[j + 1 - slots.len()]
    } else {
        parent_hash(flat_node(slots, 2 * j + 1), flat_node(slots, 2 * j + 2))
    }
}

/// Node `j` of the flat layout is the top of the subtree over the `w` slots
/// from `lo` on, where `j` lies `lo / w` nodes into the level of such nodes.
proof fn lemma_flat_node(slots: Seq<crate::Hash>, j: nat, lo: nat, w: nat, r: nat)
    requires
        w == pow2(r),
        lo + w <= slots.len(),
        (j + 1) * w == slots.len() + lo,
    ensures
        flat_node(slots, j) == subtree_root(slots.subrange(lo as int, (lo + w) as int)),
    decreases r,
{
    let part = slots.subrange(lo as int, (lo + w) as int);
    if r == 0 {
        assert(pow2(0) == 1) by {
            vstd::arithmetic::power2::lemma2_to64();
        }
        assert((j + 1) * 1 == j + 1);
    } else {
        let half = pow2((r - 1) as nat);
        lemma_pow2_unfold(r);
        lemma_pow2_pos((r - 1) as nat);
        assert(w == 2 * half);
        assert((2 * j + 2) * half == (j + 1) * w) by (nonlinear_arith)
            requires
                w == 2 * half,
        ;
        assert((2 * j + 3) * half == (j + 1) * w + half) by (nonlinear_arith)
            requires
                w == 2 * half,
        ;
        assert(2 * (j + 1) <= (j + 1) * w) by (nonlinear_arith)
            requires
                w >= 2,
        ;
        lemma_flat_node(slots, 2 * j + 1, lo, half, (r - 1) as nat);
        lemma_flat_node(slots, 2 * j + 2, lo + half, half, (r - 1) as nat);
        assert(part.take(half as int) =~= slots.subrange(lo as int, (lo + half) as int));
        assert(part.skip(half as int) =~= slots.subrange((lo + half) as int, (lo + w) as int));
    }
}

/// The least power of two that is at least `n`.
fn next_power_of_two(n: usize) -> (m: usize)
    requires
        tree_width(n as nat) <= usize::MAX,
    ensures
        m == tree_width(n as nat),
{
    let mut m: usize = 1;
    let ghost mut k: nat = 0;
    proof {
        vstd::arithmetic::power2::lemma2_to64();
        lemma_tree_width_bounds(n as nat);
    }
    while m < n
        invariant
            m == pow2(k),
            k <= tree_depth(n as nat),
            k >= 1 ==> pow2((k - 1) as nat) < n,
            tree_width(n as nat) <= usize::MAX,
            n <= tree_width(n as nat),
        decreases tree_depth(n as nat) - k,
    {
        proof {
            lemma_pow2_unfold(k + 1);
            if k + 1 < tree_depth(n as nat) {
                vstd::arithmetic::power2::lemma_pow2_strictly_increases(
                    k + 1,
                    tree_depth(n as nat),
                );
            }
        }
        m = m * 2;
        proof {
            k = k + 1;
        }
    }
    proof {
        lemma_tree_width_unique(n as nat, k);
    }
    m
}

/// The SHA-256 digest of `left` followed by `right`.
fn hash_pair(left: &crate::Hash, right: &crate::Hash) -> (parent: crate::Hash)
    ensures
        parent == parent_hash(*left, *right),
{
    let mut hasher = hasher_new();
    hasher_update(&mut hasher, left.as_slice());
    hasher_update(&mut hasher, right.as_slice());
    hasher_finalize(hasher)
}

/// Computes the root of the tree over `leaves`. The tree is built as a flat
/// array of `2m - 1` nodes for `m` leaf slots, which has to fit the machine's
/// addresses.
pub fn get_root(leaves: &[crate::Hash]) -> (root: crate::Hash)
    requires
        2 * tree_width(leaves@.len()) <= usize::MAX,
    ensures
        root == merkle_root(leaves@),
{
    let n = leaves.len();
    proof {
        lemma_tree_width_bounds(n as nat);
    }
    let size = next_power_of_two(n);
    let ghost slots = leaf_slots(leaves@);
    let mut hashes: Vec<crate::Hash> = Vec::with_capacity(size * 2 - 1);
    let filled = size - 1 + (size - n);
    while hashes.len() < filled
        invariant
            hashes@.len() <= filled,
            forall|j: int| 0 <= j < hashes@.len() ==> hashes@[j] == zero_hash(),
        decreases filled - hashes@.len(),
    {
        hashes.push([0u8; 32]);
    }
    let mut at: usize = 0;
    while at < n
        invariant
            at <= n,
            n == leaves@.len(),
            filled == size - 1 + (size - n),
            size == tree_width(n as nat),
            n <= size,
            hashes@.len() == filled + at,
            forall|j: int| 0 <= j < filled ==> hashes@[j] == zero_hash(),
            forall|j: int| 0 <= j < at ==> hashes@[filled + j] == leaves@[j],
        decreases n - at,
    {
        hashes.push(leaves[at]);
        at += 1;
    }
    assert forall|j: int| size - 1 <= j < 2 * size - 1 implies hashes@[j] == flat_node(
        slots,
        j as nat,
    ) by {
        assert(slots.len() == size);
    }
    let mut i: usize = size - 1;
    while i > 0
        invariant
            i <= size - 1,
            2 * size <= usize::MAX,
            slots.len() == size,
            hashes@.len() == 2 * size - 1,
            forall|j: int| i <= j < 2 * size - 1 ==> hashes@[j] == flat_node(slots, j as nat),
        decreases i,
    {
        i -= 1;
        let parent = hash_pair(&hashes[2 * i + 1], &hashes[2 * i + 2]);
        hashes[i] = parent;
    }
    proof {
        assert((0 + 1) * size == slots.len() + 0) by (nonlinear_arith)
            requires
                slots.len() == size,
        ;
        lemma_flat_node(slots, 0, 0, size as nat, tree_depth(n as nat));
        assert(slots.subrange(0, size as int) =~= slots);
    }
    hashes[0]
}

} // verus!

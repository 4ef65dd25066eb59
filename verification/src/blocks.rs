//! How a byte stream falls into blocks, and the leaf hashes of its blocks.

use vstd::prelude::*;

use crate::merkle::{lemma_small_trees, merkle_root, parent_hash, zero_hash};
use crate::sha256::sha256;
use crate::BLOCK_SIZE;

verus! {

/// Number of blocks that `len` bytes fall into: the last one may be short, and
/// no bytes make no block.
pub open spec fn block_count(len: nat) -> nat {
    ((len + BLOCK_SIZE - 1) / (BLOCK_SIZE as int)) as nat
}

/// Block `i` of `data`: the bytes from offset `i * BLOCK_SIZE` up to the next
/// multiple of `BLOCK_SIZE`, or to the end of `data` where that comes first.
pub open spec fn block(data: Seq<u8>, i: int) -> Seq<u8> {
    let end = if (i + 1) * BLOCK_SIZE <= data.len() {
        (i + 1) * BLOCK_SIZE
    } else {
        data.len() as int
    };
    data.subrange(i * BLOCK_SIZE, end)
}

/// The leaf hashes of `data`: the SHA-256 digest of each of its blocks, in
/// order.
pub open spec fn leaf_hashes(data: Seq<u8>) -> Seq<crate::Hash> {
    Seq::new(block_count(data.len()), |i: int| sha256(block(data, i)))
}

/// The root hash of `data`: the root of the tree over its leaf hashes.
pub open spec fn content_root(data: Seq<u8>) -> crate::Hash {
    merkle_root(leaf_hashes(data))
}

/// A block that lies whole inside a prefix of a stream is the same block of
/// the prefix: what is appended later does not reach back.
pub proof fn lemma_block_of_prefix(head: Seq<u8>, tail: Seq<u8>, i: int)
    requires
        0 <= i,
        (i + 1) * BLOCK_SIZE <= head.len(),
    ensures
        block(head + tail, i) == block(head, i),
{
    assert(block(head + tail, i) =~= block(head, i));
}

/// No bytes have no leaf, and their root is the zero hash.
pub proof fn lemma_empty_stream()
    ensures
        leaf_hashes(Seq::<u8>::empty()) == Seq::<crate::Hash>::empty(),
        content_root(Seq::<u8>::empty()) == zero_hash(),
{
    assert(leaf_hashes(Seq::<u8>::empty()) =~= Seq::<crate::Hash>::empty());
    lemma_small_trees(zero_hash(), zero_hash(), zero_hash());
}

/// Bytes that fall into one block, a full one or a short one, have one leaf,
/// the SHA-256 digest of all of them, and that leaf is their root.
pub proof fn lemma_single_block(data: Seq<u8>)
    requires
        0 < data.len() <= BLOCK_SIZE,
    ensures
        leaf_hashes(data) == seq![sha256(data)],
        content_root(data) == sha256(data),
{
    assert(block(data, 0) =~= data);
    assert(leaf_hashes(data) =~= seq![sha256(data)]);
    lemma_small_trees(sha256(data), zero_hash(), zero_hash());
}

/// Bytes that fall into two blocks have two leaves, the digest of the first
/// `BLOCK_SIZE` bytes and the digest of the rest, and their root is the parent
/// of the two.
pub proof fn lemma_two_blocks(data: Seq<u8>)
    requires
        BLOCK_SIZE < data.len() <= 2 * BLOCK_SIZE,
    ensures
        leaf_hashes(data) == seq![
            sha256(data.take(BLOCK_SIZE as int)),
            sha256(data.skip(BLOCK_SIZE as int)),
        ],
        content_root(data) == parent_hash(
            sha256(data.take(BLOCK_SIZE as int)),
            sha256(data.skip(BLOCK_SIZE as int)),
        ),
{
    let first = sha256(data.take(BLOCK_SIZE as int));
    let second = sha256(data.skip(BLOCK_SIZE as int));
    assert(block(data, 0) =~= data.take(BLOCK_SIZE as int));
    assert(block(data, 1) =~= data.skip(BLOCK_SIZE as int));
    assert(leaf_hashes(data) =~= seq![first, second]);
    lemma_small_trees(first, second, zero_hash());
}

} // verus!

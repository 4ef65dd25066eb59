//! The incremental builder of identifiers.

use vstd::prelude::*;

use crate::blocks::{block, block_count, leaf_hashes, lemma_block_of_prefix};
use crate::cid::{Cid, CidView};
use crate::merkle::{get_root, lemma_tree_fits, tree_width};
use crate::sha256::{absorbed, hasher_finalize, hasher_new, hasher_update, sha256, Hasher};
use crate::BLOCK_SIZE;

verus! {

/// What a builder stands for: the format tag it will give the identifier, and
/// the bytes it has been fed so far.
pub struct BuilderView {
    pub version: u8,
    pub data: Seq<u8>,
}

impl BuilderView {
    /// The builder after it has been fed `bytes`.
    pub open spec fn fed(self, bytes: Seq<u8>) -> BuilderView {
        BuilderView { version: self.version, data: self.data + bytes }
    }

    /// The builder after it has been fed each of `pieces` in turn.
    pub open spec fn fed_each(self, pieces: Seq<Seq<u8>>) -> BuilderView
        decreases pieces.len(),
    {
        if pieces.len() == 0 {
            self
        } else {
            self.fed(pieces.first()).fed_each(pieces.drop_first())
        }
    }

    /// The identifier that the builder gives when the stream ends here.
    pub open spec fn finished(self) -> CidView {
        CidView::of(self.version, self.data)
    }

    /// Whether the tree over the stream's blocks, laid out as a flat array of
    /// nodes, fits the machine's addresses.
    pub open spec fn tree_fits(self) -> bool {
        2 * tree_width(block_count(self.data.len())) <= usize::MAX
    }
}

/// Builds the identifier of a byte stream that is fed to it piece by piece.
pub struct CidBuilder {
    version: u8,
    /// Number of bytes fed so far.
    size: u64,
    /// Number of bytes in the block that is being filled.
    head: usize,
    /// The hasher of the block that is being filled.
    hasher: Hasher,
    /// The hashes of the blocks that are full, in order.
    leaves: Vec<crate::Hash>,
    /// The bytes fed so far.
    stream: Ghost<Seq<u8>>,
}

impl View for CidBuilder {
    type V = BuilderView;

    closed spec fn view(&self) -> BuilderView {
        BuilderView { version: self.version, data: self.stream@ }
    }
}

impl CidBuilder {
    /// The builder holds what feeding `stream` leaves behind: the hash of
    /// every full block, and in the hasher the bytes after the last full block.
    spec fn holds(&self, stream: Seq<u8>) -> bool {
        &&& self.head < BLOCK_SIZE
        &&& self.head == stream.len() % (BLOCK_SIZE as nat)
        &&& self.leaves@ == Seq::new(
            stream.len() / (BLOCK_SIZE as nat),
            |i: int| sha256(block(stream, i)),
        )
        &&& absorbed(self.hasher) == stream.skip(stream.len() - self.head)
    }

    /// The builder's fields agree with the stream it has been fed.
    pub closed spec fn wf(&self) -> bool {
        &&& self.size == self.stream@.len()
        &&& self.holds(self.stream@)
    }

    /// The number of bytes fed so far.
    pub fn size(&self) -> (size: u64)
        requires
            self.wf(),
        ensures
            size == self@.data.len(),
    {
        self.size
    }

    /// Whether the stream can end here: whether `finalize` can build the tree
    /// on this machine.
    pub fn tree_fits(&self) -> (fits: bool)
        requires
            self.wf(),
        ensures
            fits == self@.tree_fits(),
    {
        proof {
            lemma_tree_fits(block_count(self@.data.len()));
        }
        let limit = usize::MAX / 4 + 1;
        if self.head != 0 {
            self.leaves.len() < limit
        } else {
            self.leaves.len() <= limit
        }
    }

    /// Sets the format tag that the identifier will carry.
    pub fn set_version(&mut self, version: u8)
        requires
            old(self).wf(),
        ensures
            final(self).wf(),
            final(self)@ == (BuilderView { version, data: old(self)@.data }),
    {
        self.version = version;
    }

    /// Appends `data` to the stream. The blocks are cut at multiples of
    /// `BLOCK_SIZE` in the stream, wherever the pieces fed end.
    pub fn update(&mut self, data: &[u8])
        requires
            old(self).wf(),
            old(self)@.data.len() + data@.len() <= u64::MAX,
        ensures
            final(self).wf(),
            final(self)@ == old(self)@.fed(data@),
    {
        let ghost before = self.stream@;
        self.size += data.len() as u64;
        let mut pos: usize = 0;
        while pos < data.len()
            invariant
                pos <= data@.len(),
                self.version == old(self).version,
                self.size == before.len() + data@.len(),
                self.holds(before + data@.take(pos as int)),
            decreases data@.len() - pos,
        {
            let ghost fed = before + data@.take(pos as int);
            let room = BLOCK_SIZE - self.head;
            let left = data.len() - pos;
            let n = if left < room { left } else { room };
            let piece = vstd::slice::slice_subrange(data, pos, pos + n);
            hasher_update(&mut self.hasher, piece);
            pos += n;
            self.head += n;
            let ghost now = before + data@.take(pos as int);
            assert(now =~= fed + piece@);
            assert(absorbed(self.hasher) =~= now.skip(now.len() - self.head));
            if self.head == BLOCK_SIZE {
                self.head = 0;
                let mut full = hasher_new();
                std::mem::swap(&mut self.hasher, &mut full);
                self.leaves.push(hasher_finalize(full));
                assert(absorbed(self.hasher) =~= now.skip(now.len() as int));
                assert(absorbed(full) =~= block(now, fed.len() as int / (BLOCK_SIZE as int)));
            }
            assert forall|i: int| 0 <= i < fed.len() / (BLOCK_SIZE as nat) implies block(now, i)
                == block(fed, i) by {
                lemma_block_of_prefix(fed, piece@, i);
            }
            assert(self.leaves@ =~= Seq::new(
                now.len() / (BLOCK_SIZE as nat),
                |i: int| sha256(block(now, i)),
            ));
        }
        assert(data@.take(pos as int) =~= data@);
        self.stream = Ghost(before + data@);
    }

    /// Ends the stream and gives its identifier: a last, short block is hashed
    /// as it stands, and the root of the tree over the leaf hashes is taken.
    pub fn finalize(self) -> (cid: Cid)
        requires
            self.wf(),
            self@.tree_fits(),
        ensures
            cid@ == self@.finished(),
    {
        let ghost stream = self.stream@;
        let mut leaves = self.leaves;
        if self.head != 0 {
            leaves.push(hasher_finalize(self.hasher));
            assert(absorbed(self.hasher) =~= block(
                stream,
                stream.len() as int / (BLOCK_SIZE as int),
            ));
        }
        assert(leaves@ =~= leaf_hashes(stream));
        let hash = get_root(leaves.as_slice());
        Cid::new(self.version, self.size, hash)
    }
}

impl Cid {
    /// The identifier of `data` under the format tag `version`.
    pub fn from_data(version: u8, data: &[u8]) -> (cid: Cid)
        ensures
            cid@ == CidView::of(version, data@),
    {
        let mut builder = Self::builder(version);
        assert(data@.len() == data.len());
        builder.update(data);
        proof {
            assert(Seq::<u8>::empty() + data@ =~= data@);
            lemma_tree_fits(block_count(data@.len()));
        }
        builder.finalize()
    }

    /// A builder that has been fed nothing yet.
    pub fn builder(version: u8) -> (builder: CidBuilder)
        ensures
            builder.wf(),
            builder@ == (BuilderView { version, data: Seq::empty() }),
    {
        let builder = CidBuilder {
            version,
            size: 0,
            head: 0,
            hasher: hasher_new(),
            leaves: Vec::new(),
            stream: Ghost(Seq::empty()),
        };
        assert(builder.leaves@ =~= Seq::new(0, |i: int| sha256(block(builder.stream@, i))));
        assert(absorbed(builder.hasher) =~= builder.stream@.skip(0));
        builder
    }
}

/// Chunking invariance: however a stream is cut into the pieces that are fed,
/// the builder ends where it ends when the stream is fed in one piece, and
/// gives the same identifier.
pub proof fn lemma_chunking_invariance(start: BuilderView, pieces: Seq<Seq<u8>>)
    ensures
        start.fed_each(pieces) == start.fed(pieces.flatten()),
        start.fed_each(pieces).finished() == CidView::of(
            start.version,
            start.data + pieces.flatten(),
        ),
    decreases pieces.len(),
{
    if pieces.len() == 0 {
        assert(start.data + pieces.flatten() =~= start.data);
    } else {
        lemma_chunking_invariance(start.fed(pieces.first()), pieces.drop_first());
        assert((start.data + pieces.first()) + pieces.drop_first().flatten() =~= start.data
            + pieces.flatten());
    }
}

} // verus!

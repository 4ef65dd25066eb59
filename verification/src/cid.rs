//! The identifier value, its binary form and its text form.

use vstd::prelude::*;
use vstd::string::{StrSliceExecFns, StringExecFns};

use crate::base58::{base58_decoded, base58_encoded, is_base58};
use crate::blocks::{
    block_count, content_root, leaf_hashes, lemma_empty_stream, lemma_single_block,
};
use crate::merkle::lemma_zero_hash;
use crate::sha256::sha256;
use crate::varint::{
    get_u64_varint, lemma_varint_at_bounds, lemma_varint_len, lemma_varint_roundtrip,
    put_u64_varint, varint, varint_at, varint_read,
};
use crate::BLOCK_SIZE;

verus! {

/// Why bytes or text are not an identifier.
#[derive(Clone, Copy, Debug, PartialEq, Eq, Structural)]
pub enum CidDecodeError {
    /// The format tag is not one that is implemented.
    UnsupportedVersion { version: u8 },
    /// The size is no variable-length number of 64 bits.
    InvalidSize,
    /// The text after the tag is no Base58 text.
    InvalidEncoding,
    /// What follows the size is not 32 bytes long.
    InvalidHash,
}

/// What an identifier says: the format tag, the number of bytes identified,
/// and the root hash over them.
pub struct CidView {
    pub version: u8,
    pub size: nat,
    pub hash: Seq<u8>,
}

impl CidView {
    /// The identifier of `data` under the format tag `version`.
    pub open spec fn of(version: u8, data: Seq<u8>) -> CidView {
        CidView { version, size: data.len(), hash: content_root(data)@ }
    }

    /// What the view of every identifier meets: the size fits 64 bits and the
    /// hash has 32 bytes.
    pub open spec fn well_formed(self) -> bool {
        self.size <= u64::MAX && self.hash.len() == 32
    }

    /// The bytes after the tag: the size as a variable-length number, then the
    /// hash.
    pub open spec fn payload(self) -> Seq<u8> {
        varint(self.size) + self.hash
    }

    /// The binary form: the tag, then the payload.
    pub open spec fn encoded(self) -> Seq<u8> {
        seq![self.version] + self.payload()
    }

    /// The text form: the tag as a character, then the payload in Base58.
    pub open spec fn text(self) -> Seq<char> {
        seq![self.version as char] + base58_encoded(self.payload())
    }

    /// What the bytes `payload` decode to where they came under the tag
    /// `version`. The tag is looked at first, then the size, then the length
    /// of what follows the size.
    pub open spec fn from_payload(version: u8, payload: Seq<u8>) -> Result<
        CidView,
        CidDecodeError,
    > {
        if version != Cid::VERSION_RAW {
            Err(CidDecodeError::UnsupportedVersion { version })
        } else {
            match varint_read(payload) {
                None => Err(CidDecodeError::InvalidSize),
                Some((size, taken)) => if payload.len() - taken != 32 {
                    Err(CidDecodeError::InvalidHash)
                } else {
                    Ok(CidView { version, size, hash: payload.skip(taken as int) })
                },
            }
        }
    }

    /// What the binary form `bytes` decodes to.
    pub open spec fn decoded(bytes: Seq<u8>) -> Result<CidView, CidDecodeError>
        recommends
            bytes.len() > 0,
    {
        Self::from_payload(bytes[0], bytes.skip(1))
    }

    /// What the text form `text` decodes to. The Base58 text after the tag is
    /// decoded first, then the bytes are read as a payload under the tag.
    pub open spec fn parsed(text: Seq<char>) -> Result<CidView, CidDecodeError>
        recommends
            text.len() > 0,
    {
        match base58_decoded(text.skip(1)) {
            None => Err(CidDecodeError::InvalidEncoding),
            Some(payload) => Self::from_payload(text[0] as u8, payload),
        }
    }
}

/// An immutable content identifier.
#[derive(Debug, Hash)]
pub struct Cid {
    version: u8,
    size: u64,
    hash: crate::Hash,
}

impl View for Cid {
    type V = CidView;

    closed spec fn view(&self) -> CidView {
        CidView { version: self.version, size: self.size as nat, hash: self.hash@ }
    }
}

/// What a decoder returned, the identifier taken by its view.
pub open spec fn outcome(r: Result<Cid, CidDecodeError>) -> Result<CidView, CidDecodeError> {
    match r {
        Ok(cid) => Ok(cid@),
        Err(e) => Err(e),
    }
}

impl Clone for Cid {
    fn clone(&self) -> (copy: Cid)
        ensures
            copy == *self,
    {
        Cid { version: self.version, size: self.size, hash: self.hash }
    }
}

impl PartialEq for Cid {
    fn eq(&self, other: &Cid) -> (r: bool) {
        self.version == other.version && self.size == other.size && same_hash(
            &self.hash,
            &other.hash,
        )
    }
}

impl Eq for Cid {

}

impl vstd::std_specs::cmp::PartialEqSpecImpl for Cid {
    open spec fn obeys_eq_spec() -> bool {
        true
    }

    open spec fn eq_spec(&self, other: &Cid) -> bool {
        self@ == other@
    }
}

/// Whether two digests hold the same bytes.
fn same_hash(a: &crate::Hash, b: &crate::Hash) -> (same: bool)
    ensures
        same == (a@ == b@),
{
    let mut i: usize = 0;
    while i < 32
        invariant
            i <= 32,
            forall|j: int| 0 <= j < i ==> a@[j] == b@[j],
        decreases 32 - i,
    {
        if a[i] != b[i] {
            return false;
        }
        i += 1;
    }
    assert(a@ =~= b@);
    true
}

/// Appends `bytes` to `buf`.
fn put_slice(buf: &mut Vec<u8>, bytes: &[u8])
    ensures
        final(buf)@ == old(buf)@ + bytes@,
{
    buf.extend_from_slice(bytes);
    assert(buf@ =~= old(buf)@ + bytes@);
}

/// Appends a character to a string: `String::push` of std. Trusted: the
/// string grows by that character at its end.
#[verifier::external_body]
fn push_char(text: &mut String, c: char)
    ensures
        final(text)@ == old(text)@.push(c),
{
    text.push(c)
}

impl Cid {
    /// The format tag of raw content under a SHA-256 tree over blocks: `A`.
    pub const VERSION_RAW: u8 = 0x41;

    /// The length of the longest binary form of an identifier whose size is
    /// below 2 to the power 63. A size from there on takes one byte more.
    pub const MAX_SIZE_IN_BYTES: usize = 1 + 9 + 32;

    /// The identifier with the given parts.
    pub fn new(version: u8, size: u64, hash: crate::Hash) -> (cid: Cid)
        ensures
            cid@ == (CidView { version, size: size as nat, hash: hash@ }),
    {
        Cid { version, size, hash }
    }

    /// Reads an identifier from its binary form, which holds the tag at
    /// least.
    pub fn from_bytes(bytes: &[u8]) -> (r: Result<Cid, CidDecodeError>)
        requires
            bytes@.len() > 0,
        ensures
            outcome(r) == CidView::decoded(bytes@),
    {
        let (version, payload) = bytes.split_at(1);
        assert(payload@ =~= bytes@.skip(1));
        Self::from_version_and_buf(version[0], payload)
    }

    /// Appends the binary form to `buf`.
    pub fn encode(&self, buf: &mut Vec<u8>)
        ensures
            final(buf)@ == old(buf)@ + self@.encoded(),
    {
        buf.push(self.version);
        put_u64_varint(buf, self.size);
        put_slice(buf, self.hash.as_slice());
        assert(buf@ =~= old(buf)@ + self@.encoded());
    }

    /// Reads an identifier from all of `buf`, which holds the tag at least.
    pub fn decode(buf: &[u8]) -> (r: Result<Cid, CidDecodeError>)
        requires
            buf@.len() > 0,
        ensures
            outcome(r) == CidView::decoded(buf@),
    {
        let version = buf[0];
        let payload = vstd::slice::slice_subrange(buf, 1, buf.len());
        assert(payload@ =~= buf@.skip(1));
        Self::from_version_and_buf(version, payload)
    }

    /// The binary form. It is no longer than `MAX_SIZE_IN_BYTES` where the
    /// size is below 2 to the power 63, and the binary form of an identifier
    /// of raw content decodes to that identifier.
    pub fn to_bytes(&self) -> (bytes: Vec<u8>)
        ensures
            bytes@ == self@.encoded(),
            self@.size < 0x8000_0000_0000_0000 ==> bytes@.len() <= Self::MAX_SIZE_IN_BYTES,
            self@.version == Self::VERSION_RAW ==> CidView::decoded(bytes@) == Ok::<
                CidView,
                CidDecodeError,
            >(self@),
    {
        let mut buf = Vec::with_capacity(Self::MAX_SIZE_IN_BYTES);
        self.encode(&mut buf);
        proof {
            assert(buf@ =~= self@.encoded());
            lemma_encoded_len(self@);
            if self.version == Self::VERSION_RAW {
                lemma_decode_encoded(self@);
            }
        }
        buf
    }

    /// Reads an identifier from the tag `version` and the bytes `buf` that
    /// came after it.
    pub fn from_version_and_buf(version: u8, buf: &[u8]) -> (r: Result<Cid, CidDecodeError>)
        ensures
            outcome(r) == CidView::from_payload(version, buf@),
    {
        if version != Self::VERSION_RAW {
            return Err(CidDecodeError::UnsupportedVersion { version });
        }
        let (size, rest) = match get_u64_varint(buf) {
            Ok(read) => read,
            Err(_) => {
                return Err(CidDecodeError::InvalidSize);
            },
        };
        proof {
            lemma_varint_at_bounds(buf@, 0);
        }
        if rest.len() != 32 {
            return Err(CidDecodeError::InvalidHash);
        }
        let mut hash: crate::Hash = [0u8; 32];
        let mut i: usize = 0;
        while i < 32
            invariant
                i <= 32,
                rest@.len() == 32,
                forall|j: int| 0 <= j < i ==> hash@[j] == rest@[j],
            decreases 32 - i,
        {
            hash[i] = rest[i];
            i += 1;
        }
        assert(hash@ =~= rest@);
        Ok(Cid { version, size, hash })
    }

    /// The format tag.
    pub fn version(&self) -> (version: u8)
        ensures
            version == self@.version,
    {
        self.version
    }

    /// The number of bytes identified.
    pub fn size(&self) -> (size: u64)
        ensures
            size == self@.size,
    {
        self.size
    }

    /// The root hash.
    pub fn hash(&self) -> (hash: &crate::Hash)
        ensures
            hash@ == self@.hash,
    {
        &self.hash
    }

    /// The number of blocks that the bytes identified fall into.
    pub fn num_blocks(&self) -> (count: u64)
        ensures
            count == block_count(self@.size),
    {
        let whole = self.size / (BLOCK_SIZE as u64);
        if self.size % (BLOCK_SIZE as u64) != 0 {
            whole + 1
        } else {
            whole
        }
    }

    /// Whether the format tag is that of raw content.
    pub fn is_raw(&self) -> (raw: bool)
        ensures
            raw == (self@.version == Self::VERSION_RAW),
    {
        self.version == Self::VERSION_RAW
    }

    /// The text form. After the tag it holds characters of the Base58 alphabet
    /// only, and the text of an identifier of raw content reads back as that
    /// identifier.
    pub fn to_string(&self) -> (text: String)
        ensures
            text@ == self@.text(),
            is_base58(text@.skip(1)),
            self@.version == Self::VERSION_RAW ==> CidView::parsed(text@) == Ok::<
                CidView,
                CidDecodeError,
            >(self@),
    {
        let mut payload: Vec<u8> = Vec::with_capacity(Self::MAX_SIZE_IN_BYTES - 1);
        put_u64_varint(&mut payload, self.size);
        put_slice(&mut payload, self.hash.as_slice());
        assert(payload@ =~= self@.payload());
        let encoded = crate::base58::encode(payload.as_slice());
        let mut text = String::new();
        push_char(&mut text, self.version as char);
        text.append(encoded.as_str());
        proof {
            assert(text@ =~= self@.text());
            assert(text@.skip(1) =~= encoded@);
            assert(text@[0] as u8 == self.version);
            if self.version == Self::VERSION_RAW {
                lemma_payload_reads_back(self@);
            }
        }
        text
    }

    /// Reads an identifier from its text form. The first character is the
    /// tag: it has to be there and to be one byte wide. The text after it is
    /// refused as a whole where a character of it is outside the Base58
    /// alphabet.
    pub fn from_str(s: &str) -> (r: Result<Cid, CidDecodeError>)
        requires
            s@.len() > 0,
            (s@[0] as u32) < 128,
        ensures
            outcome(r) == CidView::parsed(s@),
            r == Err::<Cid, CidDecodeError>(CidDecodeError::InvalidEncoding) <==> !is_base58(
                s@.skip(1),
            ),
    {
        let len = s.unicode_len();
        let version = s.get_char(0) as u8;
        let rest = s.substring_char(1, len);
        assert(rest@ =~= s@.skip(1));
        let payload = match crate::base58::decode(rest) {
            Ok(payload) => payload,
            Err(_) => {
                return Err(CidDecodeError::InvalidEncoding);
            },
        };
        Self::from_version_and_buf(version, payload.as_slice())
    }
}

/// The view of an identifier is well formed.
pub proof fn lemma_view_well_formed(cid: Cid)
    ensures
        cid@.well_formed(),
{
}

/// Two identifiers are equal exactly where their tags, their sizes and their
/// hashes are.
pub proof fn lemma_equal_by_view(a: Cid, b: Cid)
    ensures
        a == b <==> a@ == b@,
{
    if a@ == b@ {
        assert(a.hash@ == b.hash@);
        assert(a.hash =~= b.hash);
    }
}

/// The size of the identifier of `data` is the number of bytes of `data`,
/// whether the last block is full or short; and the tree has a leaf for each
/// block, also for a short one.
pub proof fn lemma_size_counts_bytes(version: u8, data: Seq<u8>)
    ensures
        CidView::of(version, data).size == data.len(),
        leaf_hashes(data).len() == block_count(data.len()),
        block_count(data.len()) == data.len() / (BLOCK_SIZE as nat) + if data.len() % (
        BLOCK_SIZE as nat) == 0 {
            0nat
        } else {
            1nat
        },
{
}

/// The identifier of no bytes has the size 0 and the zero hash: the tree has
/// no leaf, and its one slot holds the zero hash.
pub proof fn lemma_of_nothing(version: u8)
    ensures
        leaf_hashes(Seq::<u8>::empty()).len() == 0,
        CidView::of(version, Seq::<u8>::empty()) == (CidView {
            version,
            size: 0,
            hash: Seq::new(32, |i: int| 0u8),
        }),
{
    lemma_empty_stream();
    lemma_zero_hash();
}

/// The identifier of bytes that fall into one block, as `BLOCK_SIZE` bytes
/// do, has their SHA-256 digest as its hash: the tree has one leaf, which is
/// its root.
pub proof fn lemma_of_one_block(version: u8, data: Seq<u8>)
    requires
        0 < data.len() <= BLOCK_SIZE,
    ensures
        leaf_hashes(data) == seq![sha256(data)],
        CidView::of(version, data) == (CidView {
            version,
            size: data.len(),
            hash: sha256(data)@,
        }),
{
    lemma_single_block(data);
}

/// The payload of an identifier of raw content reads back as that
/// identifier.
pub proof fn lemma_payload_reads_back(cid: CidView)
    requires
        cid.well_formed(),
        cid.version == Cid::VERSION_RAW,
    ensures
        CidView::from_payload(cid.version, cid.payload()) == Ok::<CidView, CidDecodeError>(cid),
{
    lemma_varint_roundtrip(cid.size as u64, cid.hash);
    assert(cid.payload().skip(varint(cid.size).len() as int) =~= cid.hash);
}

/// Binary round trip: the binary form of an identifier of raw content
/// decodes to that identifier.
pub proof fn lemma_decode_encoded(cid: CidView)
    requires
        cid.well_formed(),
        cid.version == Cid::VERSION_RAW,
    ensures
        CidView::decoded(cid.encoded()) == Ok::<CidView, CidDecodeError>(cid),
{
    lemma_payload_reads_back(cid);
    assert(cid.encoded().skip(1) =~= cid.payload());
}

/// The binary form has the tag, one to ten bytes of size and the hash: 34 to
/// 43 bytes, and at most 42 where the size is below 2 to the power 63.
pub proof fn lemma_encoded_len(cid: CidView)
    requires
        cid.well_formed(),
    ensures
        34 <= cid.encoded().len() <= 43,
        cid.size < 0x8000_0000_0000_0000 ==> cid.encoded().len() <= Cid::MAX_SIZE_IN_BYTES,
{
    lemma_varint_roundtrip(cid.size as u64, cid.hash);
    if cid.size < 0x8000_0000_0000_0000 {
        lemma_varint_len(cid.size);
    }
}

/// A payload under any tag but that of raw content is refused for the tag,
/// whatever it holds.
pub proof fn lemma_rejects_other_tags(version: u8, payload: Seq<u8>)
    requires
        version != Cid::VERSION_RAW,
    ensures
        CidView::from_payload(version, payload) == Err::<CidView, CidDecodeError>(
            CidDecodeError::UnsupportedVersion { version },
        ),
{
}

/// A payload that ends inside the size, every byte of it announcing another,
/// is refused for the size.
pub proof fn lemma_rejects_cut_size(payload: Seq<u8>)
    requires
        forall|i: int| 0 <= i < payload.len() ==> payload[i] >= 128,
    ensures
        CidView::from_payload(Cid::VERSION_RAW, payload) == Err::<CidView, CidDecodeError>(
            CidDecodeError::InvalidSize,
        ),
{
    lemma_no_number(payload, 0);
}

/// Where every byte announces another, no number is read.
proof fn lemma_no_number(bytes: Seq<u8>, at: nat)
    requires
        forall|i: int| 0 <= i < bytes.len() ==> bytes[i] >= 128,
    ensures
        varint_at(bytes, at) is None,
    decreases bytes.len() - at,
{
    if at < bytes.len() {
        lemma_no_number(bytes, at + 1);
    }
}

/// A payload with more or fewer than 32 bytes after the size is refused for
/// the hash.
pub proof fn lemma_rejects_other_lengths(size: u64, rest: Seq<u8>)
    requires
        rest.len() != 32,
    ensures
        CidView::from_payload(Cid::VERSION_RAW, varint(size as nat) + rest) == Err::<
            CidView,
            CidDecodeError,
        >(CidDecodeError::InvalidHash),
{
    lemma_varint_roundtrip(size, rest);
}

} // verus!

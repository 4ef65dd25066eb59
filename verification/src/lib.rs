//! Content identifiers: a format tag, a byte count and the root of a SHA-256
//! hash tree over the blocks of a byte stream.
//!
//! [`Cid`] is the identifier, with its binary form and its text form;
//! [`CidBuilder`] computes the identifier of a stream that is fed to it in
//! pieces. What the root hash of a stream is, is said in [`blocks`] and
//! [`merkle`]. The modules [`sha256`], [`varint`] and [`base58`] hold what is
//! taken from other crates: the contracts of the functions that call them are
//! not proved, and all else is proved from these.

use vstd::prelude::*;

pub mod base58;
pub mod blocks;
pub mod builder;
pub mod cid;
pub mod merkle;
pub mod sha256;
pub mod varint;

pub use builder::{BuilderView, CidBuilder};
pub use cid::{Cid, CidDecodeError, CidView};

verus! {

/// Number of bytes in a block of the stream. Each block gives one leaf of the
/// hash tree.
pub const BLOCK_SIZE: usize = 16384;

/// A SHA-256 digest.
pub type Hash = [u8; 32];

} // verus!

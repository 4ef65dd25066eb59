//! Unsigned integers in the variable-length form that the `bytes-varint`
//! crate writes and reads: seven bits to a byte, the low bits first, the top
//! bit of a byte set where more bytes follow.
//!
//! The two functions that call the crate are not proved: the verifier takes
//! their contracts on trust. The contracts say in full what the crate writes
//! and what it reads, and the rest of the module is proved from that.

use bytes_varint::{VarIntSupport, VarIntSupportMut};
use vstd::prelude::*;

verus! {

/// The bytes that encode `value`.
pub open spec fn varint(value: nat) -> Seq<u8>
    decreases value,
{
    if value < 128 {
        seq![value as u8]
    } else {
        seq![(128 + value % 128) as u8] + varint(value / 128)
    }
}

/// What reading a 64-bit number gives whose first byte is `bytes[0]`, from
/// its byte at index `at` on: the value of the bytes from there on, the low
/// seven bits of each counting 128 times those of the byte before it, and the
/// index after the number's last byte, which is the first byte without the top
/// bit. It gives `None` where `bytes` ends before such a byte, and where the
/// tenth byte is neither 0 nor 1, so that the number has more than 64 bits or
/// more than ten bytes.
pub open spec fn varint_at(bytes: Seq<u8>, at: nat) -> Option<(nat, nat)>
    decreases bytes.len() - at,
{
    if at >= bytes.len() {
        None
    } else if at == 9 && bytes[at as int] > 1 {
        None
    } else if bytes[at as int] < 128 {
        Some((bytes[at as int] as nat, at + 1))
    } else {
        match varint_at(bytes, at + 1) {
            Some((high, end)) => Some(((bytes[at as int] - 128 + 128 * high) as nat, end)),
            None => None,
        }
    }
}

/// What reading a 64-bit number from the front of `bytes` gives: the number
/// and how many bytes it takes, or `None` where there is none.
pub open spec fn varint_read(bytes: Seq<u8>) -> Option<(nat, nat)> {
    varint_at(bytes, 0)
}

/// Number of values that the bytes of a 64-bit number from the one at index
/// `at` on can hold: 2 to the power `64 - 7 * at`.
pub open spec fn room(at: nat) -> nat {
    if at == 0 {
        0x1_0000_0000_0000_0000
    } else if at == 1 {
        0x200_0000_0000_0000
    } else if at == 2 {
        0x4_0000_0000_0000
    } else if at == 3 {
        0x800_0000_0000
    } else if at == 4 {
        0x10_0000_0000
    } else if at == 5 {
        0x2000_0000
    } else if at == 6 {
        0x40_0000
    } else if at == 7 {
        0x8000
    } else if at == 8 {
        0x100
    } else {
        2
    }
}

/// The error of the readers of `bytes-varint`, of which nothing is known
/// here.
#[verifier::external_type_specification]
#[verifier::external_body]
pub struct ExVarIntError(bytes_varint::VarIntError);

/// Calls `VarIntSupportMut::put_u64_varint` of `bytes-varint` on the vector,
/// through the `BufMut` that `bytes` implements for `Vec<u8>`. Trusted: the
/// vector grows at its end by the encoding of `value`, and by nothing else.
#[verifier::external_body]
pub(crate) fn put_u64_varint(buf: &mut Vec<u8>, value: u64)
    ensures
        final(buf)@ == old(buf)@ + varint(value as nat),
{
    buf.put_u64_varint(value)
}

/// Calls `VarIntSupport::try_get_u64_varint` of `bytes-varint` on the slice,
/// through the `Buf` that `bytes` implements for `&[u8]`, and hands back the
/// number with the bytes that follow it. Trusted: the call succeeds exactly
/// where `varint_read` finds a number, and gives that number; the slice has
/// then been advanced past the number's bytes.
#[verifier::external_body]
pub(crate) fn get_u64_varint(buf: &[u8]) -> (r: Result<(u64, &[u8]), bytes_varint::VarIntError>)
    ensures
        match r {
            Ok((value, rest)) => varint_read(buf@) matches Some((number, taken)) && value
                == number && rest@ == buf@.skip(taken as int),
            Err(_) => varint_read(buf@) is None,
        },
{
    let mut rest = buf;
    match rest.try_get_u64_varint() {
        Ok(value) => Ok((value, rest)),
        Err(e) => Err(e),
    }
}

/// A number that is read fits what is left of 64 bits, and its bytes lie
/// inside `bytes` and are ten at most.
pub proof fn lemma_varint_at_bounds(bytes: Seq<u8>, at: nat)
    requires
        at <= 9,
    ensures
        match varint_at(bytes, at) {
            Some((value, end)) => at < end <= bytes.len() && end <= 10 && value < room(at),
            None => true,
        },
    decreases bytes.len() - at,
{
    if at >= bytes.len() {
    } else if at == 9 {
    } else if bytes[at as int] < 128 {
    } else {
        lemma_varint_at_bounds(bytes, at + 1);
    }
}

/// Reading finds what was written: where the encoding of `value` stands in
/// `bytes` after the bytes `before`, as the later bytes of a number, and
/// `value` fits what is left of 64 bits, reading from there gives `value` and
/// ends after the encoding.
pub proof fn lemma_varint_at_reads(before: Seq<u8>, value: nat, after: Seq<u8>)
    requires
        before.len() <= 9,
        value < room(before.len()),
    ensures
        varint_at(before + varint(value) + after, before.len()) == Some(
            (value, before.len() + varint(value).len()),
        ),
    decreases value,
{
    let at = before.len();
    let bytes = before + varint(value) + after;
    assert(bytes[at as int] == varint(value)[0]);
    if value < 128 {
    } else {
        let first = seq![(128 + value % 128) as u8];
        assert(before + varint(value) + after =~= (before + first) + varint(value / 128) + after);
        lemma_varint_at_reads(before + first, value / 128, after);
    }
}

/// Reading the encoding of a 64-bit number, whatever follows it, gives the
/// number and the encoding's length, which is ten bytes at most.
pub proof fn lemma_varint_roundtrip(value: u64, after: Seq<u8>)
    ensures
        varint_read(varint(value as nat) + after) == Some(
            (value as nat, varint(value as nat).len()),
        ),
        1 <= varint(value as nat).len() <= 10,
{
    lemma_varint_at_reads(Seq::empty(), value as nat, after);
    assert(Seq::<u8>::empty() + varint(value as nat) + after =~= varint(value as nat) + after);
    lemma_varint_at_bounds(varint(value as nat) + after, 0);
}

/// The encoding of a number below 2 to the power 63 has nine bytes at most.
pub proof fn lemma_varint_len(value: nat)
    requires
        value < 0x8000_0000_0000_0000,
    ensures
        1 <= varint(value).len() <= 9,
{
    lemma_varint_len_from(value, 0);
}

/// The encoding of a number that takes less than half the room from the byte
/// at index `at` on ends with the ninth byte or before it.
proof fn lemma_varint_len_from(value: nat, at: nat)
    requires
        at <= 8,
        2 * value < room(at),
    ensures
        1 <= varint(value).len() <= 9 - at,
    decreases value,
{
    if value >= 128 {
        lemma_varint_len_from(value / 128, at + 1);
    }
}

} // verus!

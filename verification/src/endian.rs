//! Multi-byte unsigned integers as they lie in a byte sequence.
//!
//! The arithmetic meaning of a byte run is given by [`le_value`] and
//! [`be_value`]; the conversions themselves are done by the `byteorder`
//! crate, whose behaviour is taken on trust in the two functions at the end
//! of this file.

use byteorder::{BigEndian, ByteOrder, LittleEndian};
use vstd::prelude::*;

verus! {

/// The number spelled by `bytes` when the first byte is the least
/// significant one.
pub open spec fn le_value(bytes: Seq<u8>) -> nat
    decreases bytes.len(),
{
    if bytes.len() == 0 {
        0
    } else {
        bytes[0] as nat + 256 * le_value(bytes.drop_first())
    }
}

/// The number spelled by `bytes` when the first byte is the most
/// significant one.
pub open spec fn be_value(bytes: Seq<u8>) -> nat
    decreases bytes.len(),
{
    if bytes.len() == 0 {
        0
    } else {
        256 * be_value(bytes.drop_last()) + bytes.last() as nat
    }
}

/// Three bytes, most significant first, written out.
pub proof fn lemma_be_value_3(bytes: Seq<u8>)
    requires
        bytes.len() == 3,
    ensures
        be_value(bytes) == bytes[0] as nat * 65536 + bytes[1] as nat * 256 + bytes[2] as nat,
{
    let two = bytes.drop_last();
    let one = two.drop_last();
    assert(be_value(one.drop_last()) == 0);
    assert(be_value(one) == bytes[0] as nat);
    assert(be_value(two) == 256 * be_value(one) + bytes[1] as nat);
}

/// Two bytes, most significant first, written out.
pub proof fn lemma_be_value_2(bytes: Seq<u8>)
    requires
        bytes.len() == 2,
    ensures
        be_value(bytes) == bytes[0] as nat * 256 + bytes[1] as nat,
{
    let one = bytes.drop_last();
    assert(be_value(one.drop_last()) == 0);
    assert(be_value(one) == bytes[0] as nat);
}

/// Reads the first eight bytes of `buf` as a little-endian `u64`.
///
/// Trusted: the body is `byteorder::LittleEndian::read_u64`, which panics on
/// fewer than eight bytes and otherwise returns `u64::from_le_bytes` of the
/// first eight. The contract states that number as [`le_value`].
#[verifier::external_body]
pub(crate) fn read_u64_le(buf: &[u8]) -> (value: u64)
    requires
        buf@.len() >= 8,
    ensures
        value as nat == le_value(buf@.take(8)),
{
    LittleEndian::read_u64(buf)
}

/// Reads the first `nbytes` bytes of `buf` as a big-endian unsigned integer.
///
/// Trusted: the body is `byteorder::BigEndian::read_uint`, which panics unless
/// `1 <= nbytes <= 8` and `nbytes <= buf.len()`, and otherwise right-aligns
/// those bytes in a zeroed eight-byte array and returns `u64::from_be_bytes`
/// of it. The contract states that number as [`be_value`].
#[verifier::external_body]
pub(crate) fn read_uint_be(buf: &[u8], nbytes: usize) -> (value: u64)
    requires
        1 <= nbytes <= 8,
        nbytes <= buf@.len(),
    ensures
        value as nat == be_value(buf@.take(nbytes as int)),
{
    BigEndian::read_uint(buf, nbytes)
}

} // verus!

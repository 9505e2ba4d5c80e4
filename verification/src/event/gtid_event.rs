//! The GTID event body: one flag byte, the sixteen-byte identifier of the
//! source server and the eight-byte little-endian sequence number of the
//! transaction. The decoder renders the last two as
//! `xxxxxxxx-xxxx-xxxx-xxxx-xxxxxxxxxxxx:N`.

use crate::binlog_error::BinlogError;
use crate::byte_cursor::ByteCursor;
use crate::endian::le_value;
use crate::text::{
    decimal_text, hex_text, is_lower_hex_digit, lemma_decimal_text_shape, lemma_hex_text_concat,
    lemma_hex_text_shape, push_decimal, push_hex_byte,
};
use vstd::prelude::*;
use vstd::string::StringExecFns;

verus! {

/// A decoded GTID event.
#[derive(Debug, Clone)]
pub struct GtidEvent {
    /// The flag byte, passed through as read.
    pub flags: u8,
    /// Source identifier and sequence number, as `<uuid>:<sequence>`.
    pub gtid: String,
}

/// What a [`GtidEvent`] holds, with the text as a sequence of characters.
pub struct GtidEventView {
    pub flags: u8,
    pub gtid: Seq<char>,
}

impl View for GtidEvent {
    type V = GtidEventView;

    open spec fn view(&self) -> GtidEventView {
        GtidEventView { flags: self.flags, gtid: self.gtid@ }
    }
}

/// The sixteen bytes of a source identifier as text: the bytes in the order
/// received, in groups of 4, 2, 2, 2 and 6, each group in lower-case
/// hexadecimal, the groups joined by hyphens.
pub open spec fn uuid_text(sid: Seq<u8>) -> Seq<char>
    recommends
        sid.len() == 16,
{
    hex_text(sid.subrange(0, 4)) + seq!['-'] + hex_text(sid.subrange(4, 6)) + seq!['-'] + hex_text(
        sid.subrange(6, 8),
    ) + seq!['-'] + hex_text(sid.subrange(8, 10)) + seq!['-'] + hex_text(sid.subrange(10, 16))
}

/// Identifier and sequence number joined by a colon, the number in decimal
/// without leading zeros.
pub open spec fn gtid_text(sid: Seq<u8>, gno: nat) -> Seq<char>
    recommends
        sid.len() == 16,
{
    uuid_text(sid) + seq![':'] + decimal_text(gno)
}

/// The event that the first 25 bytes of `payload` encode: the flags in byte
/// 0, the source identifier in bytes 1 to 16, the sequence number in bytes 17
/// to 24, least significant byte first.
pub open spec fn decode_payload(payload: Seq<u8>) -> GtidEventView
    recommends
        payload.len() >= 25,
{
    GtidEventView {
        flags: payload[0],
        gtid: gtid_text(payload.subrange(1, 17), le_value(payload.subrange(17, 25))),
    }
}

/// UUID text is 36 characters long: hyphens at positions 8, 13, 18 and 23,
/// and a lower-case hexadecimal digit everywhere else.
pub proof fn lemma_uuid_text_shape(sid: Seq<u8>)
    requires
        sid.len() == 16,
    ensures
        uuid_text(sid).len() == 36,
        forall|i: int|
            0 <= i < 36 ==> if i == 8 || i == 13 || i == 18 || i == 23 {
                #[trigger] uuid_text(sid)[i] == '-'
            } else {
                is_lower_hex_digit(uuid_text(sid)[i])
            },
{
    let a = hex_text(sid.subrange(0, 4));
    let b = hex_text(sid.subrange(4, 6));
    let c = hex_text(sid.subrange(6, 8));
    let d = hex_text(sid.subrange(8, 10));
    let e = hex_text(sid.subrange(10, 16));
    lemma_hex_text_shape(sid.subrange(0, 4));
    lemma_hex_text_shape(sid.subrange(4, 6));
    lemma_hex_text_shape(sid.subrange(6, 8));
    lemma_hex_text_shape(sid.subrange(8, 10));
    lemma_hex_text_shape(sid.subrange(10, 16));
    let text = uuid_text(sid);
    assert forall|i: int| 0 <= i < 36 implies if i == 8 || i == 13 || i == 18 || i == 23 {
        #[trigger] text[i] == '-'
    } else {
        is_lower_hex_digit(text[i])
    } by {
        if i < 8 {
            assert(text[i] == a[i]);
        } else if i == 8 {
        } else if i < 13 {
            assert(text[i] == b[i - 9]);
        } else if i == 13 {
        } else if i < 18 {
            assert(text[i] == c[i - 14]);
        } else if i == 18 {
        } else if i < 23 {
            assert(text[i] == d[i - 19]);
        } else if i == 23 {
        } else {
            assert(text[i] == e[i - 24]);
        }
    }
}

/// GTID text is the 36 characters of the UUID, a colon, and the sequence
/// number in decimal digits, of which the first is a zero only when the
/// number is zero.
pub proof fn lemma_gtid_text_shape(sid: Seq<u8>, gno: nat)
    requires
        sid.len() == 16,
    ensures
        gtid_text(sid, gno).len() == 37 + decimal_text(gno).len(),
        gtid_text(sid, gno).subrange(0, 36) == uuid_text(sid),
        gtid_text(sid, gno)[36] == ':',
        gtid_text(sid, gno).skip(37) == decimal_text(gno),
        gno > 0 ==> gtid_text(sid, gno)[37] != '0',
{
    lemma_uuid_text_shape(sid);
    lemma_decimal_text_shape(gno);
    assert(gtid_text(sid, gno).subrange(0, 36) =~= uuid_text(sid));
    assert(gtid_text(sid, gno).skip(37) =~= decimal_text(gno));
}

/// Decoding is a function of the 25 payload bytes alone: two events decoded
/// from inputs that agree on those bytes are the same, field by field,
/// whatever follows the payload.
pub proof fn lemma_decode_payload_deterministic(
    first_input: Seq<u8>,
    second_input: Seq<u8>,
    first: GtidEvent,
    second: GtidEvent,
)
    requires
        first_input.len() >= 25,
        second_input.len() >= 25,
        first_input.take(25) == second_input.take(25),
        first@ == decode_payload(first_input),
        second@ == decode_payload(second_input),
    ensures
        first.flags == second.flags,
        first.gtid@ == second.gtid@,
        decode_payload(first_input) == decode_payload(second_input),
{
    let payload = first_input.take(25);
    assert(first_input[0] == payload[0] && second_input[0] == payload[0]);
    assert(first_input.subrange(1, 17) =~= payload.subrange(1, 17));
    assert(second_input.subrange(1, 17) =~= payload.subrange(1, 17));
    assert(first_input.subrange(17, 25) =~= payload.subrange(17, 25));
    assert(second_input.subrange(17, 25) =~= payload.subrange(17, 25));
}

impl GtidEvent {
    /// Decodes one GTID event body at the cursor.
    ///
    /// With at least 25 bytes left, exactly 25 are consumed. With fewer, the
    /// call fails, and no event is returned. The cursor then stands behind
    /// the fields that were complete, or at the end of the input where the
    /// identifier was cut short: behind byte 17 when 17 or more were left, at
    /// the end otherwise.
    pub fn parse(cursor: &mut ByteCursor) -> (res: Result<GtidEvent, BinlogError>)
        ensures
            match res {
                Ok(event) => {
                    &&& old(cursor)@.unread.len() >= 25
                    &&& event@ == decode_payload(old(cursor)@.unread)
                    &&& final(cursor)@ == old(cursor)@.advance(25)
                },
                Err(e) => {
                    &&& e == BinlogError::UnexpectedEndOfInput
                    &&& old(cursor)@.unread.len() < 25
                    &&& final(cursor)@ == old(cursor)@.advance(
                        if old(cursor)@.unread.len() < 17 {
                            old(cursor)@.unread.len()
                        } else {
                            17
                        },
                    )
                },
            },
    {
        let ghost start = cursor@;
        let ghost payload = start.unread;
        proof {
            start.lemma_advance(0, 0);
        }
        let flags = cursor.read_u8()?;
        proof {
            start.lemma_step(1, 16);
        }
        let sid = Self::read_uuid(cursor)?;
        proof {
            start.lemma_step(17, 8);
        }
        let gno = cursor.read_u64_le()?;
        let mut gtid = sid;
        gtid.push(':');
        push_decimal(&mut gtid, gno);
        proof {
            assert(payload.skip(1).take(16) =~= payload.subrange(1, 17));
            assert(payload.skip(17).take(8) =~= payload.subrange(17, 25));
            assert(gtid@ =~= decode_payload(payload).gtid);
        }
        Ok(GtidEvent { flags, gtid })
    }

    /// Reads a sixteen-byte source identifier at the cursor and renders it
    /// as UUID text.
    ///
    /// With fewer than sixteen bytes left the call fails and all of them are
    /// consumed.
    pub fn read_uuid(cursor: &mut ByteCursor) -> (res: Result<String, BinlogError>)
        ensures
            match res {
                Ok(text) => {
                    &&& old(cursor)@.unread.len() >= 16
                    &&& text@ == uuid_text(old(cursor)@.unread.take(16))
                    &&& final(cursor)@ == old(cursor)@.advance(16)
                },
                Err(e) => {
                    &&& e == BinlogError::UnexpectedEndOfInput
                    &&& old(cursor)@.unread.len() < 16
                    &&& final(cursor)@ == old(cursor)@.advance(old(cursor)@.unread.len())
                },
            },
    {
        let ghost start = cursor@;
        let ghost unread = start.unread;
        let mut text = Self::bytes_to_hex_string(cursor, 4)?;
        text.push('-');
        proof {
            start.lemma_step(4, 2);
        }
        let group = Self::bytes_to_hex_string(cursor, 2)?;
        text.append(group.as_str());
        text.push('-');
        proof {
            start.lemma_step(6, 2);
        }
        let group = Self::bytes_to_hex_string(cursor, 2)?;
        text.append(group.as_str());
        text.push('-');
        proof {
            start.lemma_step(8, 2);
        }
        let group = Self::bytes_to_hex_string(cursor, 2)?;
        text.append(group.as_str());
        text.push('-');
        proof {
            start.lemma_step(10, 6);
        }
        let group = Self::bytes_to_hex_string(cursor, 6)?;
        text.append(group.as_str());
        proof {
            let id = unread.take(16);
            assert(unread.take(4) =~= id.subrange(0, 4));
            assert(unread.skip(4).take(2) =~= id.subrange(4, 6));
            assert(unread.skip(6).take(2) =~= id.subrange(6, 8));
            assert(unread.skip(8).take(2) =~= id.subrange(8, 10));
            assert(unread.skip(10).take(6) =~= id.subrange(10, 16));
        }
        Ok(text)
    }

    /// Reads `byte_count` bytes at the cursor, one at a time, and renders
    /// them in lower-case hexadecimal, two digits per byte.
    ///
    /// With fewer than `byte_count` bytes left the call fails and all of them
    /// are consumed.
    pub fn bytes_to_hex_string(cursor: &mut ByteCursor, byte_count: u8) -> (res: Result<
        String,
        BinlogError,
    >)
        ensures
            match res {
                Ok(text) => {
                    &&& old(cursor)@.unread.len() >= byte_count
                    &&& text@ == hex_text(old(cursor)@.unread.take(byte_count as int))
                    &&& final(cursor)@ == old(cursor)@.advance(byte_count as nat)
                },
                Err(e) => {
                    &&& e == BinlogError::UnexpectedEndOfInput
                    &&& old(cursor)@.unread.len() < byte_count
                    &&& final(cursor)@ == old(cursor)@.advance(old(cursor)@.unread.len())
                },
            },
    {
        let ghost start = cursor@;
        let ghost unread = start.unread;
        let mut res = String::new();
        proof {
            start.lemma_advance(0, 0);
        }
        let mut done: u8 = 0;
        while done < byte_count
            invariant
                done <= byte_count,
                done <= unread.len(),
                start == old(cursor)@,
                unread == start.unread,
                cursor@ == start.advance(done as nat),
                res@ == hex_text(unread.take(done as int)),
            decreases byte_count - done,
        {
            proof {
                start.lemma_advance(done as nat, 0);
                if done < unread.len() {
                    start.lemma_advance(done as nat, 1);
                }
            }
            let byte = match cursor.read_u8() {
                Ok(byte) => byte,
                Err(e) => {
                    return Err(e);
                },
            };
            push_hex_byte(&mut res, byte);
            proof {
                assert(unread.take(done + 1) =~= unread.take(done as int) + seq![byte]);
                lemma_hex_text_concat(unread.take(done as int), seq![byte]);
            }
            done = done + 1;
        }
        Ok(res)
    }
}

} // verus!

//! TIME column values.
//!
//! A value is three bytes, most significant first, that pack the time of
//! day, followed by a fraction of a second whose width and unit depend on
//! the precision the column was declared with:
//!
//! | declared precision | fraction bytes | unit         |
//! |--------------------|----------------|--------------|
//! | none, or 0         | 0              | -            |
//! | 3                  | 2              | milliseconds |
//! | 6                  | 3              | microseconds |
//!
//! Of the 24 packed bits the lowest six are the second, the next six the
//! minute and the next ten the hour; the two highest (sign and a reserved
//! bit) are not looked at. Whatever the precision, the text has the form
//! `HH:MM:SS.FFFFFF`, the fraction in microseconds. The bytes are decoded as
//! they come: a minute of 61 is rendered as `61`.

use crate::binlog_error::BinlogError;
use crate::byte_cursor::ByteCursor;
use crate::endian::{be_value, lemma_be_value_2, lemma_be_value_3};
use crate::text::{
    is_decimal_digit, lemma_padded_decimal_text_len, lemma_padded_decimal_text_shape,
    padded_decimal_text, pow10, push_padded_decimal,
};
use vstd::prelude::*;

verus! {

/// How the fraction of a second is stored.
#[derive(Debug, Clone, Copy, PartialEq, Eq, Structural)]
pub enum TimePrecision {
    /// No fraction is stored.
    Seconds,
    /// Two bytes of milliseconds.
    Millis,
    /// Three bytes of microseconds.
    Micros,
}

impl TimePrecision {
    /// The layout for a declared precision, where there is one: none and 0
    /// store no fraction, 3 stores milliseconds, 6 stores microseconds.
    pub open spec fn spec_from_declared(declared: Option<u8>) -> Option<TimePrecision> {
        match declared {
            None => Some(TimePrecision::Seconds),
            Some(digits) => if digits == 0 {
                Some(TimePrecision::Seconds)
            } else if digits == 3 {
                Some(TimePrecision::Millis)
            } else if digits == 6 {
                Some(TimePrecision::Micros)
            } else {
                None
            },
        }
    }

    /// The number of fraction bytes.
    pub open spec fn spec_fraction_len(self) -> nat {
        match self {
            TimePrecision::Seconds => 0,
            TimePrecision::Millis => 2,
            TimePrecision::Micros => 3,
        }
    }

    /// The number of microseconds in one unit of the stored fraction.
    pub open spec fn spec_micros_per_unit(self) -> nat {
        match self {
            TimePrecision::Seconds => 1,
            TimePrecision::Millis => 1000,
            TimePrecision::Micros => 1,
        }
    }

    /// The number of bytes in a value: the packed time and the fraction.
    pub open spec fn spec_encoded_len(self) -> nat {
        3 + self.spec_fraction_len()
    }

    /// The layout for a declared precision. Any precision other than none,
    /// 0, 3 and 6 is refused.
    pub fn from_declared(declared: Option<u8>) -> (res: Result<TimePrecision, BinlogError>)
        ensures
            match res {
                Ok(precision) => Self::spec_from_declared(declared) == Some(precision),
                Err(e) => {
                    &&& Self::spec_from_declared(declared) is None
                    &&& declared matches Some(digits)
                    &&& e == BinlogError::UnsupportedPrecision(digits)
                },
            },
    {
        match declared {
            None => Ok(TimePrecision::Seconds),
            Some(0) => Ok(TimePrecision::Seconds),
            Some(3) => Ok(TimePrecision::Millis),
            Some(6) => Ok(TimePrecision::Micros),
            Some(digits) => Err(BinlogError::UnsupportedPrecision(digits)),
        }
    }

    /// The number of fraction bytes.
    pub fn fraction_len(self) -> (len: usize)
        ensures
            len == self.spec_fraction_len(),
    {
        match self {
            TimePrecision::Seconds => 0,
            TimePrecision::Millis => 2,
            TimePrecision::Micros => 3,
        }
    }

    /// The number of bytes in a value: the packed time and the fraction.
    pub fn encoded_len(self) -> (len: usize)
        ensures
            len == self.spec_encoded_len(),
    {
        3 + self.fraction_len()
    }

    /// The number of microseconds in one unit of the stored fraction.
    pub fn micros_per_unit(self) -> (factor: u64)
        ensures
            factor == self.spec_micros_per_unit(),
    {
        match self {
            TimePrecision::Seconds => 1,
            TimePrecision::Millis => 1000,
            TimePrecision::Micros => 1,
        }
    }
}

/// The hour in a packed time: bits 12 to 21.
pub open spec fn packed_hour(packed: nat) -> nat {
    packed / 4096 % 1024
}

/// The minute in a packed time: bits 6 to 11.
pub open spec fn packed_minute(packed: nat) -> nat {
    packed / 64 % 64
}

/// The second in a packed time: bits 0 to 5.
pub open spec fn packed_second(packed: nat) -> nat {
    packed % 64
}

/// The fraction of a value in microseconds: the stored number times the
/// unit, and zero where no fraction is stored.
pub open spec fn fraction_micros(raw: Seq<u8>, precision: TimePrecision) -> nat
    recommends
        raw.len() >= precision.spec_encoded_len(),
{
    if precision.spec_fraction_len() == 0 {
        0
    } else {
        be_value(raw.subrange(3, precision.spec_encoded_len() as int))
            * precision.spec_micros_per_unit()
    }
}

/// A time of day as text: hour, minute and second with at least two digits
/// each, the fraction with at least six.
pub open spec fn time_text(hour: nat, minute: nat, second: nat, micros: nat) -> Seq<char> {
    padded_decimal_text(hour, 2) + seq![':'] + padded_decimal_text(minute, 2) + seq![':']
        + padded_decimal_text(second, 2) + seq!['.'] + padded_decimal_text(micros, 6)
}

/// The text of the value at the start of `raw`.
pub open spec fn decode_time(raw: Seq<u8>, precision: TimePrecision) -> Seq<char>
    recommends
        raw.len() >= precision.spec_encoded_len(),
{
    let packed = be_value(raw.subrange(0, 3));
    time_text(
        packed_hour(packed),
        packed_minute(packed),
        packed_second(packed),
        fraction_micros(raw, precision),
    )
}

/// What decoding `raw` under a declared precision comes to: the text, or the
/// reason there is none. An unsupported precision is reported before a short
/// input.
pub open spec fn decode_time_outcome(raw: Seq<u8>, declared: Option<u8>) -> Result<
    Seq<char>,
    BinlogError,
> {
    match TimePrecision::spec_from_declared(declared) {
        None => Err(BinlogError::UnsupportedPrecision(declared->Some_0)),
        Some(precision) => if raw.len() < precision.spec_encoded_len() {
            Err(BinlogError::UnexpectedEndOfInput)
        } else {
            Ok(decode_time(raw, precision))
        },
    }
}

/// The result of a decode call with the text taken as its characters.
pub open spec fn outcome_view(res: Result<String, BinlogError>) -> Result<Seq<char>, BinlogError> {
    match res {
        Ok(text) => Ok(text@),
        Err(e) => Err(e),
    }
}

/// The form `HH:MM:SS.FFFFFF`: read from the end, six digits, a point, two
/// digits, a colon, two digits, a colon, and two or more digits.
pub open spec fn is_time_text(text: Seq<char>) -> bool {
    let len = text.len() as int;
    &&& len >= 15
    &&& text[len - 13] == ':'
    &&& text[len - 10] == ':'
    &&& text[len - 7] == '.'
    &&& forall|i: int|
        0 <= i < len && i != len - 13 && i != len - 10 && i != len - 7 ==> is_decimal_digit(
            #[trigger] text[i],
        )
}

/// Whether the value at the start of `raw` is a time of day as the database
/// writes it: all bytes present and the fraction below one second.
pub open spec fn is_valid_time_value(raw: Seq<u8>, precision: TimePrecision) -> bool {
    &&& raw.len() >= precision.spec_encoded_len()
    &&& fraction_micros(raw, precision) < 1_000_000
}

/// With minute and second below 100 and the fraction below one second, time
/// text has the form `HH:MM:SS.FFFFFF`, and is 15 characters long when the
/// hour is below 100.
pub proof fn lemma_time_text_shape(hour: nat, minute: nat, second: nat, micros: nat)
    requires
        minute < 100,
        second < 100,
        micros < 1_000_000,
    ensures
        is_time_text(time_text(hour, minute, second, micros)),
        hour < 100 ==> time_text(hour, minute, second, micros).len() == 15,
{
    let hh = padded_decimal_text(hour, 2);
    let mm = padded_decimal_text(minute, 2);
    let ss = padded_decimal_text(second, 2);
    let ff = padded_decimal_text(micros, 6);
    assert(pow10(2) == 100 && pow10(6) == 1_000_000) by {
        reveal_with_fuel(pow10, 7);
    }
    lemma_padded_decimal_text_shape(hour, 2);
    lemma_padded_decimal_text_shape(minute, 2);
    lemma_padded_decimal_text_shape(second, 2);
    lemma_padded_decimal_text_shape(micros, 6);
    lemma_padded_decimal_text_len(minute, 2);
    lemma_padded_decimal_text_len(second, 2);
    lemma_padded_decimal_text_len(micros, 6);
    if hour < 100 {
        lemma_padded_decimal_text_len(hour, 2);
    }
    let text = time_text(hour, minute, second, micros);
    let h = hh.len() as int;
    assert(text.len() == h + 13);
    assert forall|i: int|
        0 <= i < h + 13 && i != h && i != h + 3 && i != h + 6 implies is_decimal_digit(
        #[trigger] text[i],
    ) by {
        if i < h {
            assert(text[i] == hh[i]);
        } else if i < h + 3 {
            assert(text[i] == mm[i - h - 1]);
        } else if i < h + 6 {
            assert(text[i] == ss[i - h - 4]);
        } else {
            assert(text[i] == ff[i - h - 7]);
        }
    }
}

/// For every supported declared precision and every valid value, decoding
/// gives text of the form `HH:MM:SS.FFFFFF`, with exactly six digits after
/// the point; the text is 15 characters long when the hour is below 100.
pub proof fn lemma_decode_time_shape(raw: Seq<u8>, declared: Option<u8>)
    requires
        TimePrecision::spec_from_declared(declared) matches Some(precision)
            && is_valid_time_value(raw, precision),
    ensures
        decode_time_outcome(raw, declared) matches Ok(text) && is_time_text(text) && (packed_hour(
            be_value(raw.subrange(0, 3)),
        ) < 100 ==> text.len() == 15),
{
    let precision = TimePrecision::spec_from_declared(declared)->Some_0;
    let packed = be_value(raw.subrange(0, 3));
    lemma_time_text_shape(
        packed_hour(packed),
        packed_minute(packed),
        packed_second(packed),
        fraction_micros(raw, precision),
    );
}

/// A value of a column that stores no fraction (no declared precision, or
/// precision 0) decodes to text that ends in `.000000`.
pub proof fn lemma_decode_time_without_fraction(raw: Seq<u8>, declared: Option<u8>)
    requires
        TimePrecision::spec_from_declared(declared) == Some(TimePrecision::Seconds),
        raw.len() >= 3,
    ensures
        decode_time_outcome(raw, declared) matches Ok(text) && is_time_text(text) && text.skip(
            text.len() - 7,
        ) == seq!['.', '0', '0', '0', '0', '0', '0'],
{
    lemma_decode_time_shape(raw, declared);
    let text = decode_time(raw, TimePrecision::Seconds);
    let zeros = padded_decimal_text(0, 6);
    assert(zeros =~= seq!['0', '0', '0', '0', '0', '0']);
    assert(text.skip(text.len() - 7) =~= seq!['.'] + zeros);
}

/// Decodes the TIME value at the start of `raw` for a column of the declared
/// precision. Bytes after the value are not looked at.
///
/// A column without a declared precision stores no fraction; its text still
/// ends in `.000000`, so that every value has the same form. The text alone
/// therefore does not tell a stored fraction of zero from an absent one.
pub fn decode_time_value(raw: &[u8], declared_precision: Option<u8>) -> (res: Result<
    String,
    BinlogError,
>)
    ensures
        outcome_view(res) == decode_time_outcome(raw@, declared_precision),
{
    let precision = TimePrecision::from_declared(declared_precision)?;
    let mut cursor = ByteCursor::new(raw);
    let ghost start = cursor@;
    let packed = cursor.read_uint_be(3)?;
    proof {
        start.lemma_step(3, precision.spec_fraction_len());
        lemma_be_value_3(raw@.take(3));
        assert(raw@.take(3) =~= raw@.subrange(0, 3));
    }
    let fraction_len = precision.fraction_len();
    let micros = if fraction_len == 0 {
        0
    } else {
        let stored = cursor.read_uint_be(fraction_len)?;
        let factor = precision.micros_per_unit();
        proof {
            let field = raw@.subrange(3, 3 + fraction_len);
            assert(raw@.skip(3).take(fraction_len as int) =~= field);
            if fraction_len == 2 {
                lemma_be_value_2(field);
            } else {
                lemma_be_value_3(field);
            }
            assert(stored * factor <= 0xff_ffff * 1000) by (nonlinear_arith)
                requires
                    stored <= 0xff_ffff,
                    factor <= 1000,
            ;
        }
        stored * factor
    };
    let hour = packed / 4096 % 1024;
    let minute = packed / 64 % 64;
    let second = packed % 64;
    let mut text = String::new();
    push_padded_decimal(&mut text, hour, 2);
    text.push(':');
    push_padded_decimal(&mut text, minute, 2);
    text.push(':');
    push_padded_decimal(&mut text, second, 2);
    text.push('.');
    push_padded_decimal(&mut text, micros, 6);
    assert(text@ =~= decode_time(raw@, precision));
    Ok(text)
}

} // verus!

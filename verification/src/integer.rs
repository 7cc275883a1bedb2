//! The INTEGER codec of the fixed-width integer types.

use crate::big_endian::{
    be_bytes, be_octets, be_value, leading_zero_octets, lemma_be_bytes_len,
    lemma_be_bytes_value, lemma_be_value_bound, lemma_be_value_first, lemma_pow256_monotone,
    lemma_pow256_values, lemma_strip_at, lemma_strip_leading_zeros, pow256, signed_be_value,
    signed_i128, strip_leading_zeros, unsigned_u128,
};
use crate::codec::{append_octets, DerDeserialize, DerSerialize};
use crate::error::DerError;
use crate::length::{lemma_length_decoding_prefix, length_decoding, length_encoding, Length};
use crate::tag::INTEGER;
use vstd::prelude::*;
use vstd::slice::slice_subrange;

verus! {

/// The widths, in octets, of the integer types that have a codec.
pub open spec fn supported_width(width: nat) -> bool {
    width == 1 || width == 2 || width == 4 || width == 8 || width == 16
}

/// Whether `value` is a number of the type of `width` octets, signed or not.
pub open spec fn fits(value: int, width: nat, signed: bool) -> bool {
    if signed {
        -(pow256(width) / 2) <= value < pow256(width) / 2
    } else {
        0 <= value < pow256(width)
    }
}

/// The unsigned number whose `width` octets are those of `value`: `value`
/// itself from zero on, and its two's complement below.
pub open spec fn unsigned_form(value: int, width: nat) -> nat {
    if value < 0 {
        (value + pow256(width)) as nat
    } else {
        value as nat
    }
}

/// The content octets of `value`: its `width` octets, most significant first,
/// without the leading zero octets. Below zero every octet stays.
pub open spec fn integer_content(value: int, width: nat) -> Seq<u8> {
    strip_leading_zeros(be_bytes(unsigned_form(value, width), width))
}

/// The INTEGER whose content octets are `content`: tag, length header,
/// content.
pub open spec fn integer_tlv(content: Seq<u8>) -> Seq<u8> {
    seq![INTEGER] + length_encoding(content.len() as u32) + content
}

/// The encoding of `value` as a number of `width` octets.
pub open spec fn integer_encoding(value: int, width: nat) -> Seq<u8> {
    integer_tlv(integer_content(value, width))
}

/// The content octets of the INTEGER at the front of `bytes`, with the number
/// of octets of the whole TLV.
pub open spec fn integer_frame(bytes: Seq<u8>) -> Result<(Seq<u8>, nat), DerError> {
    if bytes.len() == 0 {
        Err(DerError::UnexpectedEof)
    } else if bytes[0] != INTEGER {
        Err(DerError::UnexpectedTag)
    } else {
        match length_decoding(bytes.skip(1)) {
            Err(e) => Err(e),
            Ok((count, header)) => {
                let start = 1 + header as int;
                if bytes.len() - start < count {
                    Err(DerError::UnexpectedEof)
                } else {
                    Ok((bytes.subrange(start, start + count), (start + count) as nat))
                }
            },
        }
    }
}

/// The number that `content` writes for a type of `width` octets. An
/// unsigned type reads a magnitude. A signed type reads two's complement
/// where the octets are at least as many as its own, and a magnitude where
/// they are fewer.
pub open spec fn content_value(content: Seq<u8>, width: nat, signed: bool) -> int {
    if signed && content.len() >= width {
        signed_be_value(content)
    } else {
        be_value(content) as int
    }
}

/// What the front of `bytes` decodes to for a type of `width` octets: the
/// number and the octets of its TLV, or the failure.
pub open spec fn integer_decoding(bytes: Seq<u8>, width: nat, signed: bool) -> Result<
    (int, nat),
    DerError,
> {
    match integer_frame(bytes) {
        Err(e) => Err(e),
        Ok((content, used)) => {
            let value = content_value(content, width, signed);
            if fits(value, width, signed) {
                Ok((value, used))
            } else {
                Err(DerError::IntValueTooLarge)
            }
        },
    }
}

/// Writes the INTEGER of the number whose `width` octets are those of `repr`.
fn write_integer(repr: u128, width: usize, writer: &mut Vec<u8>) -> (written: usize)
    requires
        1 <= width <= 16,
    ensures
        final(writer)@ == old(writer)@ + integer_tlv(
            strip_leading_zeros(be_bytes(repr as nat, width as nat)),
        ),
        written == integer_tlv(strip_leading_zeros(be_bytes(repr as nat, width as nat))).len(),
{
    let mut written: usize = 0;

    writer.push(INTEGER);
    written += 1;

    let bytes = be_octets(repr, width);
    proof {
        lemma_be_bytes_len(repr as nat, width as nat);
    }
    let mut start = leading_zero_octets(bytes.as_slice());
    let mut len = width - start;

    if len == 0 {
        len = 1;
        start = width - 1;
    }
    proof {
        lemma_strip_at(bytes@, start as nat);
    }

    written += Length::new(len as u32).serialize(writer);
    append_octets(writer, slice_subrange(bytes.as_slice(), start, width));

    written + len
}

/// Reads the tag and the length header of the INTEGER at the front of
/// `input`, and hands out its content octets with the size of the TLV.
fn read_frame<'a>(input: &'a [u8]) -> (r: Result<(&'a [u8], usize), DerError>)
    ensures
        match integer_frame(input@) {
            Ok((content, used)) => {
                &&& r matches Ok(found)
                &&& found.0@ == content
                &&& found.1 == used
                &&& used <= input@.len()
            },
            Err(e) => r == Err::<(&[u8], usize), DerError>(e),
        },
{
    if input.len() == 0 {
        return Err(DerError::UnexpectedEof);
    }
    let tag = input[0];

    if tag != INTEGER {
        return Err(DerError::UnexpectedTag);
    }
    let mut rest = slice_subrange(input, 1, input.len());

    let length = match Length::deserialize(&mut rest) {
        Ok(length) => {
            proof {
                Length::lemma_with_count(length_decoding(input@.skip(1))->Ok_0.0);
            }
            length.into_usize()
        },
        Err(e) => {
            return Err(e);
        },
    };

    if rest.len() < length {
        return Err(DerError::UnexpectedEof);
    }
    let header = input.len() - 1 - rest.len();
    let content = slice_subrange(rest, 0, length);
    Ok((content, 1 + header + length))
}

/// The largest number of the unsigned type of `width` octets.
fn unsigned_max(width: usize) -> (max: u128)
    requires
        supported_width(width as nat),
    ensures
        max == pow256(width as nat) - 1,
{
    proof {
        lemma_pow256_values();
    }
    if width == 1 {
        0xFF
    } else if width == 2 {
        0xFFFF
    } else if width == 4 {
        0xFFFF_FFFF
    } else if width == 8 {
        0xFFFF_FFFF_FFFF_FFFF
    } else {
        u128::MAX
    }
}

/// The largest number of the signed type of `width` octets.
fn signed_max(width: usize) -> (max: i128)
    requires
        supported_width(width as nat),
    ensures
        max == pow256(width as nat) / 2 - 1,
{
    proof {
        lemma_pow256_values();
    }
    if width == 1 {
        0x7F
    } else if width == 2 {
        0x7FFF
    } else if width == 4 {
        0x7FFF_FFFF
    } else if width == 8 {
        0x7FFF_FFFF_FFFF_FFFF
    } else {
        i128::MAX
    }
}

/// Reads an INTEGER for the unsigned type of `width` octets.
fn decode_unsigned(bytes: &mut &[u8], width: usize) -> (r: Result<u128, DerError>)
    requires
        supported_width(width as nat),
    ensures
        match integer_decoding(old(bytes)@, width as nat, false) {
            Ok((value, used)) => {
                &&& r == Ok::<u128, DerError>(value as u128)
                &&& 0 <= value <= u128::MAX
                &&& used <= old(bytes)@.len()
                &&& final(bytes)@ == old(bytes)@.skip(used as int)
            },
            Err(e) => r == Err::<u128, DerError>(e) && final(bytes)@ == old(bytes)@,
        },
{
    let input: &[u8] = *bytes;
    let (content, used) = match read_frame(input) {
        Ok(found) => found,
        Err(e) => {
            return Err(e);
        },
    };
    proof {
        lemma_pow256_values();
    }
    match unsigned_u128(content) {
        Some(magnitude) => {
            if magnitude > unsigned_max(width) {
                Err(DerError::IntValueTooLarge)
            } else {
                *bytes = slice_subrange(input, used, input.len());
                Ok(magnitude)
            }
        },
        None => Err(DerError::IntValueTooLarge),
    }
}

/// Reads an INTEGER for the signed type of `width` octets.
fn decode_signed(bytes: &mut &[u8], width: usize) -> (r: Result<i128, DerError>)
    requires
        supported_width(width as nat),
    ensures
        match integer_decoding(old(bytes)@, width as nat, true) {
            Ok((value, used)) => {
                &&& r == Ok::<i128, DerError>(value as i128)
                &&& i128::MIN <= value <= i128::MAX
                &&& used <= old(bytes)@.len()
                &&& final(bytes)@ == old(bytes)@.skip(used as int)
            },
            Err(e) => r == Err::<i128, DerError>(e) && final(bytes)@ == old(bytes)@,
        },
{
    let input: &[u8] = *bytes;
    let (content, used) = match read_frame(input) {
        Ok(found) => found,
        Err(e) => {
            return Err(e);
        },
    };
    proof {
        lemma_pow256_values();
    }
    let value: i128 = if content.len() < width {
        proof {
            lemma_be_value_bound(content@);
            lemma_pow256_monotone(content@.len(), 15);
        }
        match unsigned_u128(content) {
            Some(magnitude) => magnitude as i128,
            // Fewer than 16 octets always fit: this arm is never taken.
            None => {
                return Err(DerError::IntValueTooLarge);
            },
        }
    } else {
        match signed_i128(content) {
            Some(value) => value,
            None => {
                return Err(DerError::IntValueTooLarge);
            },
        }
    };
    let max = signed_max(width);

    if value > max || value < -max - 1 {
        Err(DerError::IntValueTooLarge)
    } else {
        *bytes = slice_subrange(input, used, input.len());
        Ok(value)
    }
}

impl DerSerialize for u8 {
    open spec fn encoding(&self) -> Seq<u8> {
        integer_encoding(*self as int, 1)
    }

    fn serialize(&self, writer: &mut Vec<u8>) -> (written: usize) {
        write_integer(*self as u128, 1, writer)
    }
}

impl DerSerialize for i8 {
    open spec fn encoding(&self) -> Seq<u8> {
        integer_encoding(*self as int, 1)
    }

    fn serialize(&self, writer: &mut Vec<u8>) -> (written: usize) {
        let value = *self;
        let repr = value as u8;
        proof {
            lemma_pow256_values();
            assert(repr == (if value < 0 {
                value + 0x100
            } else {
                value as int
            })) by (bit_vector)
                requires
                    repr == value as u8,
            ;
        }
        write_integer(repr as u128, 1, writer)
    }
}

impl DerSerialize for u16 {
    open spec fn encoding(&self) -> Seq<u8> {
        integer_encoding(*self as int, 2)
    }

    fn serialize(&self, writer: &mut Vec<u8>) -> (written: usize) {
        write_integer(*self as u128, 2, writer)
    }
}

impl DerSerialize for i16 {
    open spec fn encoding(&self) -> Seq<u8> {
        integer_encoding(*self as int, 2)
    }

    fn serialize(&self, writer: &mut Vec<u8>) -> (written: usize) {
        let value = *self;
        let repr = value as u16;
        proof {
            lemma_pow256_values();
            assert(repr == (if value < 0 {
                value + 0x1_0000
            } else {
                value as int
            })) by (bit_vector)
                requires
                    repr == value as u16,
            ;
        }
        write_integer(repr as u128, 2, writer)
    }
}

impl DerSerialize for u32 {
    open spec fn encoding(&self) -> Seq<u8> {
        integer_encoding(*self as int, 4)
    }

    fn serialize(&self, writer: &mut Vec<u8>) -> (written: usize) {
        write_integer(*self as u128, 4, writer)
    }
}

impl DerSerialize for i32 {
    open spec fn encoding(&self) -> Seq<u8> {
        integer_encoding(*self as int, 4)
    }

    fn serialize(&self, writer: &mut Vec<u8>) -> (written: usize) {
        let value = *self;
        let repr = value as u32;
        proof {
            lemma_pow256_values();
            assert(repr == (if value < 0 {
                value + 0x1_0000_0000
            } else {
                value as int
            })) by (bit_vector)
                requires
                    repr == value as u32,
            ;
        }
        write_integer(repr as u128, 4, writer)
    }
}

impl DerSerialize for u64 {
    open spec fn encoding(&self) -> Seq<u8> {
        integer_encoding(*self as int, 8)
    }

    fn serialize(&self, writer: &mut Vec<u8>) -> (written: usize) {
        write_integer(*self as u128, 8, writer)
    }
}

impl DerSerialize for i64 {
    open spec fn encoding(&self) -> Seq<u8> {
        integer_encoding(*self as int, 8)
    }

    fn serialize(&self, writer: &mut Vec<u8>) -> (written: usize) {
        let value = *self;
        let repr = value as u64;
        proof {
            lemma_pow256_values();
            assert(repr == (if value < 0 {
                value + 0x1_0000_0000_0000_0000
            } else {
                value as int
            })) by (bit_vector)
                requires
                    repr == value as u64,
            ;
        }
        write_integer(repr as u128, 8, writer)
    }
}

impl DerSerialize for u128 {
    open spec fn encoding(&self) -> Seq<u8> {
        integer_encoding(*self as int, 16)
    }

    fn serialize(&self, writer: &mut Vec<u8>) -> (written: usize) {
        write_integer(*self, 16, writer)
    }
}

impl DerSerialize for i128 {
    open spec fn encoding(&self) -> Seq<u8> {
        integer_encoding(*self as int, 16)
    }

    fn serialize(&self, writer: &mut Vec<u8>) -> (written: usize) {
        let value = *self;
        let repr = value as u128;
        proof {
            lemma_pow256_values();
            assert(repr == (if value < 0 {
                value + 0x1_0000_0000_0000_0000_0000_0000_0000_0000
            } else {
                value as int
            })) by (bit_vector)
                requires
                    repr == value as u128,
            ;
        }
        write_integer(repr, 16, writer)
    }
}

impl DerDeserialize for u8 {
    open spec fn decoding(bytes: Seq<u8>) -> Result<(u8, nat), DerError> {
        match integer_decoding(bytes, 1, false) {
            Ok((value, used)) => Ok((value as u8, used)),
            Err(e) => Err(e),
        }
    }

    fn deserialize(bytes: &mut &[u8]) -> (r: Result<u8, DerError>) {
        match decode_unsigned(bytes, 1) {
            Ok(value) => Ok(value as u8),
            Err(e) => Err(e),
        }
    }
}

impl DerDeserialize for i8 {
    open spec fn decoding(bytes: Seq<u8>) -> Result<(i8, nat), DerError> {
        match integer_decoding(bytes, 1, true) {
            Ok((value, used)) => Ok((value as i8, used)),
            Err(e) => Err(e),
        }
    }

    fn deserialize(bytes: &mut &[u8]) -> (r: Result<i8, DerError>) {
        match decode_signed(bytes, 1) {
            Ok(value) => Ok(value as i8),
            Err(e) => Err(e),
        }
    }
}

impl DerDeserialize for u16 {
    open spec fn decoding(bytes: Seq<u8>) -> Result<(u16, nat), DerError> {
        match integer_decoding(bytes, 2, false) {
            Ok((value, used)) => Ok((value as u16, used)),
            Err(e) => Err(e),
        }
    }

    fn deserialize(bytes: &mut &[u8]) -> (r: Result<u16, DerError>) {
        match decode_unsigned(bytes, 2) {
            Ok(value) => Ok(value as u16),
            Err(e) => Err(e),
        }
    }
}

impl DerDeserialize for i16 {
    open spec fn decoding(bytes: Seq<u8>) -> Result<(i16, nat), DerError> {
        match integer_decoding(bytes, 2, true) {
            Ok((value, used)) => Ok((value as i16, used)),
            Err(e) => Err(e),
        }
    }

    fn deserialize(bytes: &mut &[u8]) -> (r: Result<i16, DerError>) {
        match decode_signed(bytes, 2) {
            Ok(value) => Ok(value as i16),
            Err(e) => Err(e),
        }
    }
}

impl DerDeserialize for u32 {
    open spec fn decoding(bytes: Seq<u8>) -> Result<(u32, nat), DerError> {
        match integer_decoding(bytes, 4, false) {
            Ok((value, used)) => Ok((value as u32, used)),
            Err(e) => Err(e),
        }
    }

    fn deserialize(bytes: &mut &[u8]) -> (r: Result<u32, DerError>) {
        match decode_unsigned(bytes, 4) {
            Ok(value) => Ok(value as u32),
            Err(e) => Err(e),
        }
    }
}

impl DerDeserialize for i32 {
    open spec fn decoding(bytes: Seq<u8>) -> Result<(i32, nat), DerError> {
        match integer_decoding(bytes, 4, true) {
            Ok((value, used)) => Ok((value as i32, used)),
            Err(e) => Err(e),
        }
    }

    fn deserialize(bytes: &mut &[u8]) -> (r: Result<i32, DerError>) {
        match decode_signed(bytes, 4) {
            Ok(value) => Ok(value as i32),
            Err(e) => Err(e),
        }
    }
}

impl DerDeserialize for u64 {
    open spec fn decoding(bytes: Seq<u8>) -> Result<(u64, nat), DerError> {
        match integer_decoding(bytes, 8, false) {
            Ok((value, used)) => Ok((value as u64, used)),
            Err(e) => Err(e),
        }
    }

    fn deserialize(bytes: &mut &[u8]) -> (r: Result<u64, DerError>) {
        match decode_unsigned(bytes, 8) {
            Ok(value) => Ok(value as u64),
            Err(e) => Err(e),
        }
    }
}

impl DerDeserialize for i64 {
    open spec fn decoding(bytes: Seq<u8>) -> Result<(i64, nat), DerError> {
        match integer_decoding(bytes, 8, true) {
            Ok((value, used)) => Ok((value as i64, used)),
            Err(e) => Err(e),
        }
    }

    fn deserialize(bytes: &mut &[u8]) -> (r: Result<i64, DerError>) {
        match decode_signed(bytes, 8) {
            Ok(value) => Ok(value as i64),
            Err(e) => Err(e),
        }
    }
}

impl DerDeserialize for u128 {
    open spec fn decoding(bytes: Seq<u8>) -> Result<(u128, nat), DerError> {
        match integer_decoding(bytes, 16, false) {
            Ok((value, used)) => Ok((value as u128, used)),
            Err(e) => Err(e),
        }
    }

    fn deserialize(bytes: &mut &[u8]) -> (r: Result<u128, DerError>) {
        match decode_unsigned(bytes, 16) {
            Ok(value) => Ok(value),
            Err(e) => Err(e),
        }
    }
}

impl DerDeserialize for i128 {
    open spec fn decoding(bytes: Seq<u8>) -> Result<(i128, nat), DerError> {
        match integer_decoding(bytes, 16, true) {
            Ok((value, used)) => Ok((value as i128, used)),
            Err(e) => Err(e),
        }
    }

    fn deserialize(bytes: &mut &[u8]) -> (r: Result<i128, DerError>) {
        match decode_signed(bytes, 16) {
            Ok(value) => Ok(value),
            Err(e) => Err(e),
        }
    }
}

/// What the encoding of a number looks like: the INTEGER tag, one octet that
/// counts the content, and content that writes the number in as few octets as
/// have no leading zero.
pub proof fn lemma_integer_encoding_shape(value: int, width: nat, signed: bool)
    requires
        1 <= width <= 127,
        fits(value, width, signed),
    ensures
        ({
            let content = integer_content(value, width);
            &&& 1 <= content.len() <= width
            &&& content.len() > 1 ==> content[0] != 0
            &&& be_value(content) == unsigned_form(value, width)
            &&& integer_encoding(value, width) == seq![INTEGER, content.len() as u8] + content
        }),
{
    let repr = unsigned_form(value, width);
    let full = be_bytes(repr, width);
    lemma_be_bytes_value(repr, width);
    lemma_strip_leading_zeros(full);
}

/// Decoding the encoding of a number gives the number back, and takes no
/// more than the encoding, whatever follows it.
pub proof fn lemma_integer_round_trip(value: int, width: nat, signed: bool, rest: Seq<u8>)
    requires
        1 <= width <= 127,
        fits(value, width, signed),
    ensures
        integer_decoding(integer_encoding(value, width) + rest, width, signed) == Ok::<
            (int, nat),
            DerError,
        >((value, integer_encoding(value, width).len())),
{
    let repr = unsigned_form(value, width);
    let full = be_bytes(repr, width);
    let content = integer_content(value, width);
    let encoding = integer_encoding(value, width);
    let bytes = encoding + rest;
    let high = pow256((width - 1) as nat) as int;
    lemma_be_bytes_value(repr, width);
    lemma_strip_leading_zeros(full);
    lemma_be_value_first(full);
    let top = full[0] as int;
    if top >= 0x80 {
        assert(top * high >= 0x80 * high) by (nonlinear_arith)
            requires
                top >= 0x80,
                high >= 0,
        ;
    } else {
        assert(top * high <= 0x7F * high) by (nonlinear_arith)
            requires
                top <= 0x7F,
                high >= 0,
        ;
    }
    let count = content.len() as u32;
    assert(bytes.subrange(2, 2 + count) =~= content);
}

/// Octets that do not start with the INTEGER tag are refused as
/// `UnexpectedTag`, whatever follows.
pub proof fn lemma_integer_wrong_tag(bytes: Seq<u8>, width: nat, signed: bool)
    requires
        bytes.len() > 0,
        bytes[0] != INTEGER,
    ensures
        integer_decoding(bytes, width, signed) == Err::<(int, nat), DerError>(
            DerError::UnexpectedTag,
        ),
{
}

/// An INTEGER whose header asks for more content octets than are left is
/// refused as `UnexpectedEof`.
pub proof fn lemma_integer_short_content(bytes: Seq<u8>, width: nat, signed: bool)
    requires
        bytes.len() > 0,
        bytes[0] == INTEGER,
        length_decoding(bytes.skip(1)) matches Ok(found) && bytes.len() - 1 - found.1 < found.0,
    ensures
        integer_decoding(bytes, width, signed) == Err::<(int, nat), DerError>(
            DerError::UnexpectedEof,
        ),
{
}

/// Every proper prefix of the octets of an INTEGER is refused as
/// `UnexpectedEof`.
pub proof fn lemma_integer_truncated(bytes: Seq<u8>, width: nat, signed: bool, k: int)
    requires
        integer_frame(bytes) matches Ok(found) && 0 <= k < found.1,
    ensures
        integer_decoding(bytes.take(k), width, signed) == Err::<(int, nat), DerError>(
            DerError::UnexpectedEof,
        ),
{
    if k > 0 {
        let front = bytes.take(k);
        let header = length_decoding(bytes.skip(1))->Ok_0.1;
        assert(front.skip(1) =~= bytes.skip(1).take(k - 1));
        if k - 1 >= header {
            lemma_length_decoding_prefix(bytes.skip(1), k - 1);
        }
    }
}

/// Decoding the encoding of an `u8` gives it back, and takes no more than
/// the encoding, whatever follows it.
pub proof fn lemma_u8_round_trip(value: u8, rest: Seq<u8>)
    ensures
        u8::decoding(value.encoding() + rest) == Ok::<(u8, nat), DerError>(
            (value, value.encoding().len()),
        ),
{
    lemma_pow256_values();
    lemma_integer_round_trip(value as int, 1, false, rest);
}

/// Decoding the encoding of an `i8` gives it back, and takes no more than
/// the encoding, whatever follows it.
pub proof fn lemma_i8_round_trip(value: i8, rest: Seq<u8>)
    ensures
        i8::decoding(value.encoding() + rest) == Ok::<(i8, nat), DerError>(
            (value, value.encoding().len()),
        ),
{
    lemma_pow256_values();
    lemma_integer_round_trip(value as int, 1, true, rest);
}

/// Decoding the encoding of an `u16` gives it back, and takes no more than
/// the encoding, whatever follows it.
pub proof fn lemma_u16_round_trip(value: u16, rest: Seq<u8>)
    ensures
        u16::decoding(value.encoding() + rest) == Ok::<(u16, nat), DerError>(
            (value, value.encoding().len()),
        ),
{
    lemma_pow256_values();
    lemma_integer_round_trip(value as int, 2, false, rest);
}

/// Decoding the encoding of an `i16` gives it back, and takes no more than
/// the encoding, whatever follows it.
pub proof fn lemma_i16_round_trip(value: i16, rest: Seq<u8>)
    ensures
        i16::decoding(value.encoding() + rest) == Ok::<(i16, nat), DerError>(
            (value, value.encoding().len()),
        ),
{
    lemma_pow256_values();
    lemma_integer_round_trip(value as int, 2, true, rest);
}

/// Decoding the encoding of an `u32` gives it back, and takes no more than
/// the encoding, whatever follows it.
pub proof fn lemma_u32_round_trip(value: u32, rest: Seq<u8>)
    ensures
        u32::decoding(value.encoding() + rest) == Ok::<(u32, nat), DerError>(
            (value, value.encoding().len()),
        ),
{
    lemma_pow256_values();
    lemma_integer_round_trip(value as int, 4, false, rest);
}

/// Decoding the encoding of an `i32` gives it back, and takes no more than
/// the encoding, whatever follows it.
pub proof fn lemma_i32_round_trip(value: i32, rest: Seq<u8>)
    ensures
        i32::decoding(value.encoding() + rest) == Ok::<(i32, nat), DerError>(
            (value, value.encoding().len()),
        ),
{
    lemma_pow256_values();
    lemma_integer_round_trip(value as int, 4, true, rest);
}

/// Decoding the encoding of an `u64` gives it back, and takes no more than
/// the encoding, whatever follows it.
pub proof fn lemma_u64_round_trip(value: u64, rest: Seq<u8>)
    ensures
        u64::decoding(value.encoding() + rest) == Ok::<(u64, nat), DerError>(
            (value, value.encoding().len()),
        ),
{
    lemma_pow256_values();
    lemma_integer_round_trip(value as int, 8, false, rest);
}

/// Decoding the encoding of an `i64` gives it back, and takes no more than
/// the encoding, whatever follows it.
pub proof fn lemma_i64_round_trip(value: i64, rest: Seq<u8>)
    ensures
        i64::decoding(value.encoding() + rest) == Ok::<(i64, nat), DerError>(
            (value, value.encoding().len()),
        ),
{
    lemma_pow256_values();
    lemma_integer_round_trip(value as int, 8, true, rest);
}

/// Decoding the encoding of an `u128` gives it back, and takes no more than
/// the encoding, whatever follows it.
pub proof fn lemma_u128_round_trip(value: u128, rest: Seq<u8>)
    ensures
        u128::decoding(value.encoding() + rest) == Ok::<(u128, nat), DerError>(
            (value, value.encoding().len()),
        ),
{
    lemma_pow256_values();
    lemma_integer_round_trip(value as int, 16, false, rest);
}

/// Decoding the encoding of an `i128` gives it back, and takes no more than
/// the encoding, whatever follows it.
pub proof fn lemma_i128_round_trip(value: i128, rest: Seq<u8>)
    ensures
        i128::decoding(value.encoding() + rest) == Ok::<(i128, nat), DerError>(
            (value, value.encoding().len()),
        ),
{
    lemma_pow256_values();
    lemma_integer_round_trip(value as int, 16, true, rest);
}

} // verus!

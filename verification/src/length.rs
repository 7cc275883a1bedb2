//! The length header of a TLV: an octet count in short or long form.

use crate::big_endian::{
    be_bytes, be_octets, be_value, leading_zero_octets, lemma_be_bytes_value,
    lemma_be_value_first, lemma_be_value_skip_zeros, lemma_pow256_values, lemma_strip_at,
    lemma_strip_leading_zeros, strip_leading_zeros, unsigned_u64,
};
use crate::codec::{append_octets, DerDeserialize, DerSerialize};
use crate::error::DerError;
use vstd::prelude::*;
use vstd::slice::slice_subrange;

verus! {

/// The number of content octets of a TLV.
///
/// `new` takes a count of at least one. A header read from input may say
/// zero: `is_positive` tells the two apart.
#[derive(Clone, Copy, Debug, PartialEq, Eq, Structural)]
pub struct Length(u32);

impl View for Length {
    type V = u32;

    closed spec fn view(&self) -> u32 {
        self.0
    }
}

/// The header octets of the count `value`: the count itself up to 127, and
/// from 128 on the number of octets of its shortest big-endian form, with the
/// top bit set, before those octets.
pub open spec fn length_encoding(value: u32) -> Seq<u8> {
    if value <= 127 {
        seq![value as u8]
    } else {
        let octets = strip_leading_zeros(be_bytes(value as nat, 4));
        seq![(0x80 + octets.len()) as u8] + octets
    }
}

/// The count that the front of `bytes` gives, with the number of header
/// octets. A first octet up to 127 is the count. A larger one gives, in its
/// low seven bits, the number of octets that follow and write the count,
/// most significant first; leading zero octets among them are accepted.
/// Octets that are not there are `UnexpectedEof`; a count that 32 bits do
/// not hold is `IntValueTooLarge`.
pub open spec fn length_decoding(bytes: Seq<u8>) -> Result<(u32, nat), DerError> {
    if bytes.len() == 0 {
        Err(DerError::UnexpectedEof)
    } else if bytes[0] <= 127 {
        Ok((bytes[0] as u32, 1))
    } else {
        let following = bytes[0] - 0x80;
        if bytes.len() - 1 < following {
            Err(DerError::UnexpectedEof)
        } else {
            let value = be_value(bytes.subrange(1, 1 + following));
            if value <= u32::MAX {
                Ok((value as u32, (1 + following) as nat))
            } else {
                Err(DerError::IntValueTooLarge)
            }
        }
    }
}

impl Length {
    /// The length whose count is `value`.
    pub closed spec fn with_count(value: u32) -> Length {
        Length(value)
    }

    /// Whether the count is at least one, as `new` asks.
    pub open spec fn is_positive(self) -> bool {
        self@ >= 1
    }

    /// A length is its count, and nothing else.
    pub proof fn lemma_count(self)
        ensures
            Length::with_count(self@) == self,
    {
    }

    /// The count of `with_count(value)` is `value`.
    pub proof fn lemma_with_count(value: u32)
        ensures
            Length::with_count(value)@ == value,
    {
    }

    /// The length of `n` content octets.
    pub fn new(n: u32) -> (length: Length)
        requires
            n > 0,
        ensures
            length == Length::with_count(n),
            length@ == n,
            length.is_positive(),
    {
        Length(n)
    }

    /// The length of `n` content octets, or `InvalidEncoding` where `n` is
    /// zero.
    pub fn try_new(n: u32) -> (r: Result<Length, DerError>)
        ensures
            n > 0 ==> r == Ok::<Length, DerError>(Length::with_count(n)),
            n == 0 ==> r == Err::<Length, DerError>(DerError::InvalidEncoding),
    {
        if n > 0 {
            Ok(Length(n))
        } else {
            Err(DerError::InvalidEncoding)
        }
    }

    /// The count.
    pub fn value(self) -> (n: u32)
        ensures
            n == self@,
    {
        self.0
    }

    /// The count, as an index.
    pub fn into_usize(self) -> (n: usize)
        ensures
            n == self@,
    {
        self.0 as usize
    }
}

impl DerSerialize for Length {
    open spec fn encoding(&self) -> Seq<u8> {
        length_encoding(self@)
    }

    fn serialize(&self, writer: &mut Vec<u8>) -> (written: usize) {
        if self.0 > 127 {
            // Long form, the shortest that holds the count.
            let bytes = be_octets(self.0 as u128, 4);
            let start = leading_zero_octets(bytes.as_slice());
            proof {
                lemma_pow256_values();
                lemma_be_bytes_value(self.0 as nat, 4);
                if start == 4 {
                    lemma_be_value_skip_zeros(bytes@, 4);
                }
                lemma_strip_at(bytes@, start as nat);
            }
            let len = 4 - start;
            let count = len as u8;
            assert(0x80u8 | count == 0x80 + count) by (bit_vector)
                requires
                    count <= 4,
            ;
            writer.push(0x80 | count);
            append_octets(writer, slice_subrange(bytes.as_slice(), start, 4));
            len + 1
        } else {
            // Short form.
            writer.push(self.0 as u8);
            1
        }
    }
}

impl DerDeserialize for Length {
    open spec fn decoding(bytes: Seq<u8>) -> Result<(Length, nat), DerError> {
        match length_decoding(bytes) {
            Ok((value, used)) => Ok((Length::with_count(value), used)),
            Err(e) => Err(e),
        }
    }

    fn deserialize(bytes: &mut &[u8]) -> (r: Result<Length, DerError>) {
        let input: &[u8] = *bytes;
        if input.len() == 0 {
            return Err(DerError::UnexpectedEof);
        }
        let first_byte = input[0];
        if first_byte > 127 {
            let mask_len = (first_byte & 0b0111_1111) as usize;
            assert(first_byte & 0b0111_1111 == first_byte - 0x80) by (bit_vector)
                requires
                    first_byte > 127,
            ;
            if input.len() - 1 < mask_len {
                return Err(DerError::UnexpectedEof);
            }
            let octets = slice_subrange(input, 1, 1 + mask_len);
            match unsigned_u64(octets) {
                Some(wide) => match u32::try_from(wide) {
                    Ok(len) => {
                        *bytes = slice_subrange(input, 1 + mask_len, input.len());
                        Ok(Length(len))
                    },
                    Err(e) => Err(DerError::from(e)),
                },
                None => Err(DerError::IntValueTooLarge),
            }
        } else {
            *bytes = slice_subrange(input, 1, input.len());
            Ok(Length(first_byte as u32))
        }
    }
}

/// What a header looks like: one octet up to 127; from 128 on, between one
/// and four octets that write the count without a leading zero, behind an
/// octet that counts them.
pub proof fn lemma_length_encoding_shape(value: u32)
    ensures
        value <= 127 ==> length_encoding(value) == seq![value as u8],
        value > 127 ==> ({
            let header = length_encoding(value);
            &&& 2 <= header.len() <= 5
            &&& header[0] == 0x80 + (header.len() - 1)
            &&& header[1] != 0
            &&& be_value(header.skip(1)) == value
        }),
{
    if value > 127 {
        let full = be_bytes(value as nat, 4);
        let octets = strip_leading_zeros(full);
        let header = length_encoding(value);
        lemma_pow256_values();
        lemma_be_bytes_value(value as nat, 4);
        lemma_strip_leading_zeros(full);
        assert(header.skip(1) =~= octets);
        if octets.len() == 1 {
            lemma_be_value_first(octets);
        }
    }
}

/// Reading the header of a count gives the count back, and takes no more
/// than the header, whatever follows it.
pub proof fn lemma_length_encoding_round_trip(value: u32, rest: Seq<u8>)
    ensures
        length_decoding(length_encoding(value) + rest) == Ok::<(u32, nat), DerError>(
            (value, length_encoding(value).len()),
        ),
{
    let header = length_encoding(value);
    let bytes = header + rest;
    if value > 127 {
        lemma_length_encoding_shape(value);
        let following = header.len() - 1;
        assert(bytes.subrange(1, 1 + following) =~= header.skip(1));
    }
}

/// Decoding the encoding of a length gives the length back, and takes no
/// more than the encoding, whatever follows it.
pub proof fn lemma_length_round_trip(length: Length, rest: Seq<u8>)
    ensures
        Length::decoding(length.encoding() + rest) == Ok::<(Length, nat), DerError>(
            (length, length.encoding().len()),
        ),
{
    lemma_length_encoding_round_trip(length@, rest);
}

/// What follows a header has no part in how it is read.
pub proof fn lemma_length_decoding_prefix(bytes: Seq<u8>, k: int)
    requires
        length_decoding(bytes) matches Ok(found) && found.1 <= k <= bytes.len(),
    ensures
        length_decoding(bytes.take(k)) == length_decoding(bytes),
{
    let front = bytes.take(k);
    if bytes[0] > 127 {
        let following = bytes[0] - 0x80;
        assert(front.subrange(1, 1 + following) =~= bytes.subrange(1, 1 + following));
    }
}

/// A header that is cut short, or a long-form header whose octets are not
/// all there, is refused as `UnexpectedEof`.
pub proof fn lemma_length_truncated(bytes: Seq<u8>, k: int)
    requires
        length_decoding(bytes) matches Ok(found) && 0 <= k < found.1,
    ensures
        length_decoding(bytes.take(k)) == Err::<(u32, nat), DerError>(DerError::UnexpectedEof),
{
}

} // verus!

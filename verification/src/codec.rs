//! What it is to have a DER encoding, and to be read from one.

use crate::error::DerError;
use vstd::prelude::*;

verus! {

/// A value that has a DER encoding.
pub trait DerSerialize {
    /// The octets that encode `self`.
    spec fn encoding(&self) -> Seq<u8>;

    /// Appends the encoding of `self` to `writer`, and returns the number of
    /// octets that it wrote.
    fn serialize(&self, writer: &mut Vec<u8>) -> (written: usize)
        ensures
            final(writer)@ == old(writer)@ + self.encoding(),
            written == self.encoding().len(),
    ;
}

/// A value that can be read from the front of a DER octet string.
pub trait DerDeserialize: Sized {
    /// What the front of `bytes` decodes to: the value and the number of
    /// octets that encode it, or the reason why it encodes none.
    spec fn decoding(bytes: Seq<u8>) -> Result<(Self, nat), DerError>;

    /// Reads a value from the front of `bytes` and moves `bytes` behind the
    /// octets that encode it. On failure `bytes` stays where it was.
    fn deserialize(bytes: &mut &[u8]) -> (r: Result<Self, DerError>)
        ensures
            match Self::decoding(old(bytes)@) {
                Ok((value, used)) => {
                    &&& r == Ok::<Self, DerError>(value)
                    &&& used <= old(bytes)@.len()
                    &&& final(bytes)@ == old(bytes)@.skip(used as int)
                },
                Err(e) => r == Err::<Self, DerError>(e) && final(bytes)@ == old(bytes)@,
            },
    ;
}

/// Appends `octets` to `writer`.
pub(crate) fn append_octets(writer: &mut Vec<u8>, octets: &[u8])
    ensures
        final(writer)@ == old(writer)@ + octets@,
{
    let mut i: usize = 0;
    while i < octets.len()
        invariant
            i <= octets@.len(),
            writer@ == old(writer)@ + octets@.take(i as int),
        decreases octets@.len() - i,
    {
        writer.push(octets[i]);
        i += 1;
    }
}

} // verus!

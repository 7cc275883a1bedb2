//! The identifier octet of a TLV: class, form and tag number in one octet.

use vstd::prelude::*;

verus! {

/// The tag octet of the universal, primitive type BOOLEAN.
pub const BOOLEAN: u8 = 0x01;

/// The tag octet of the universal, primitive type INTEGER.
pub const INTEGER: u8 = 0x02;

/// The tag octet of the universal, primitive type BIT STRING.
pub const BIT_STRING: u8 = 0x03;

/// The tag octet of the universal, primitive type OCTET STRING.
pub const OCTET_STRING: u8 = 0x04;

/// The tag octet of the universal, primitive type NULL.
pub const NULL: u8 = 0x05;

/// The tag octet of the universal, primitive type OBJECT IDENTIFIER.
pub const OBJECT_IDENTIFIER: u8 = 0x06;

/// The class code of the universal class.
pub const CLASS_UNIVERSAL: u8 = 0;

/// The class code of the application class.
pub const CLASS_APPLICATION: u8 = 1;

/// The class code of the context-specific class.
pub const CLASS_CONTEXT_SPECIFIC: u8 = 2;

/// The class code of the private class.
pub const CLASS_PRIVATE: u8 = 3;

/// The class code in `octet`: its two top bits.
pub open spec fn class_of(octet: u8) -> u8 {
    octet >> 6
}

/// Whether `octet` says constructed: its bit 5.
pub open spec fn constructed_of(octet: u8) -> bool {
    octet & 0b0010_0000 != 0
}

/// The tag number in `octet`: its five low bits.
pub open spec fn number_of(octet: u8) -> u8 {
    octet & 0b0001_1111
}

/// `octet` with its class bits cleared and then set to `class`.
pub open spec fn with_class(octet: u8, class: u8) -> u8 {
    octet & 0b0011_1111 | (class << 6)
}

/// `octet` with bit 5 cleared, and then set where `constructed` holds.
pub open spec fn with_form(octet: u8, constructed: bool) -> u8 {
    if constructed {
        octet & 0b1101_1111 | 0b0010_0000
    } else {
        octet & 0b1101_1111
    }
}

/// One identifier octet.
pub struct Tag(u8);

impl View for Tag {
    type V = u8;

    closed spec fn view(&self) -> u8 {
        self.0
    }
}

impl Tag {
    /// The tag whose octet is `tag_number` as it stands. A number above 31
    /// reaches into the class and form bits.
    pub fn new(tag_number: u8) -> (tag: Tag)
        ensures
            tag@ == tag_number,
    {
        Tag(tag_number)
    }

    /// This tag in the universal class.
    pub fn universal(self) -> (tag: Tag)
        ensures
            tag@ == with_class(self@, CLASS_UNIVERSAL),
    {
        let octet = self.0;
        assert(octet & 0b0011_1111 == octet & 0b0011_1111 | (0u8 << 6)) by (bit_vector);
        Tag(self.0 & 0b0011_1111)
    }

    /// This tag in the application class.
    pub fn application(self) -> (tag: Tag)
        ensures
            tag@ == with_class(self@, CLASS_APPLICATION),
    {
        let octet = self.0;
        assert(octet & 0b0011_1111 | 0b0100_0000 == octet & 0b0011_1111 | (1u8 << 6))
            by (bit_vector);
        Tag(self.0 & 0b0011_1111 | 0b0100_0000)
    }

    /// This tag in the context-specific class.
    pub fn context_specific(self) -> (tag: Tag)
        ensures
            tag@ == with_class(self@, CLASS_CONTEXT_SPECIFIC),
    {
        let octet = self.0;
        assert(octet & 0b0011_1111 | 0b1000_0000 == octet & 0b0011_1111 | (2u8 << 6))
            by (bit_vector);
        Tag(self.0 & 0b0011_1111 | 0b1000_0000)
    }

    /// This tag in the private class.
    pub fn private(self) -> (tag: Tag)
        ensures
            tag@ == with_class(self@, CLASS_PRIVATE),
    {
        let octet = self.0;
        assert(octet & 0b0011_1111 | 0b1100_0000 == octet & 0b0011_1111 | (3u8 << 6))
            by (bit_vector);
        Tag(self.0 & 0b0011_1111 | 0b1100_0000)
    }

    /// This tag in primitive form.
    pub fn primitive(self) -> (tag: Tag)
        ensures
            tag@ == with_form(self@, false),
    {
        Tag(self.0 & 0b1101_1111)
    }

    /// This tag in constructed form.
    pub fn constructed(self) -> (tag: Tag)
        ensures
            tag@ == with_form(self@, true),
    {
        Tag(self.0 & 0b1101_1111 | 0b0010_0000)
    }

    /// The octet.
    pub fn into_tag_value(self) -> (octet: u8)
        ensures
            octet == self@,
    {
        self.0
    }
}

/// Setting the class sets the class, and leaves form and number alone.
pub proof fn lemma_with_class_fields(octet: u8, class: u8)
    requires
        class <= 3,
    ensures
        class_of(with_class(octet, class)) == class,
        constructed_of(with_class(octet, class)) == constructed_of(octet),
        number_of(with_class(octet, class)) == number_of(octet),
{
    assert(class <= 3 ==> (octet & 0b0011_1111 | (class << 6)) >> 6 == class) by (bit_vector);
    assert(class <= 3 ==> ((octet & 0b0011_1111 | (class << 6)) & 0b0010_0000 != 0) == (octet
        & 0b0010_0000 != 0)) by (bit_vector);
    assert(class <= 3 ==> (octet & 0b0011_1111 | (class << 6)) & 0b0001_1111 == octet
        & 0b0001_1111) by (bit_vector);
}

/// Setting the form sets the form, and leaves class and number alone.
pub proof fn lemma_with_form_fields(octet: u8, constructed: bool)
    ensures
        constructed_of(with_form(octet, constructed)) == constructed,
        class_of(with_form(octet, constructed)) == class_of(octet),
        number_of(with_form(octet, constructed)) == number_of(octet),
{
    assert((octet & 0b1101_1111 | 0b0010_0000) & 0b0010_0000 != 0) by (bit_vector);
    assert((octet & 0b1101_1111) & 0b0010_0000 == 0) by (bit_vector);
    assert((octet & 0b1101_1111 | 0b0010_0000) >> 6 == octet >> 6) by (bit_vector);
    assert((octet & 0b1101_1111) >> 6 == octet >> 6) by (bit_vector);
    assert((octet & 0b1101_1111 | 0b0010_0000) & 0b0001_1111 == octet & 0b0001_1111)
        by (bit_vector);
    assert((octet & 0b1101_1111) & 0b0001_1111 == octet & 0b0001_1111) by (bit_vector);
}

/// Of two classes set one after the other, the second stands.
pub proof fn lemma_last_class_wins(octet: u8, first: u8, second: u8)
    requires
        first <= 3,
        second <= 3,
    ensures
        with_class(with_class(octet, first), second) == with_class(octet, second),
{
    assert(first <= 3 && second <= 3 ==> (octet & 0b0011_1111 | (first << 6)) & 0b0011_1111 | (
    second << 6) == octet & 0b0011_1111 | (second << 6)) by (bit_vector);
}

/// Of two forms set one after the other, the second stands.
pub proof fn lemma_last_form_wins(octet: u8, first: bool, second: bool)
    ensures
        with_form(with_form(octet, first), second) == with_form(octet, second),
{
    assert((octet & 0b1101_1111 | 0b0010_0000) & 0b1101_1111 == octet & 0b1101_1111)
        by (bit_vector);
    assert((octet & 0b1101_1111) & 0b1101_1111 == octet & 0b1101_1111) by (bit_vector);
}

/// Class and form can be set in either order.
pub proof fn lemma_class_and_form_commute(octet: u8, class: u8, constructed: bool)
    requires
        class <= 3,
    ensures
        with_form(with_class(octet, class), constructed) == with_class(
            with_form(octet, constructed),
            class,
        ),
{
    assert(class <= 3 ==> (octet & 0b0011_1111 | (class << 6)) & 0b1101_1111 | 0b0010_0000 == (
    octet & 0b1101_1111 | 0b0010_0000) & 0b0011_1111 | (class << 6)) by (bit_vector);
    assert(class <= 3 ==> (octet & 0b0011_1111 | (class << 6)) & 0b1101_1111 == (octet
        & 0b1101_1111) & 0b0011_1111 | (class << 6)) by (bit_vector);
}

/// A tag number up to 31, made universal and primitive, is its own octet:
/// so are the six named tag octets.
pub proof fn lemma_universal_primitive(number: u8)
    requires
        number <= 31,
    ensures
        with_form(with_class(number, CLASS_UNIVERSAL), false) == number,
{
    assert(number <= 31 ==> (number & 0b0011_1111 | (0u8 << 6)) & 0b1101_1111 == number)
        by (bit_vector);
}

} // verus!

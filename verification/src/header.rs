//! The one-byte frame header and the traits that tie components to it.
//!
//! A header packs two disjoint bit-fields into one byte: a 3-bit identifier
//! shape in the high bits and a 5-bit nickname length code in the low bits.
//! Setting one field never disturbs the other.

use vstd::prelude::*;

verus! {

/// One byte holding two disjoint bit-fields.
///
/// The high three bits record the shape of the identifier's compaction, the
/// low five bits record the nickname's codepoint count less one.
#[derive(Clone, Debug, PartialEq, Eq, Structural)]
pub struct Header(u8);

/// A value that occupies a fixed bit-field of a [`Header`].
///
/// An implementor names its mask and shift, and renders itself as the raw
/// field value; the field value always fits the mask once shifted.
pub trait HeaderComponent: Sized {
    /// The bits of the header byte that belong to this component.
    spec fn spec_mask() -> u8;

    /// How far the component's raw value is shifted into the byte.
    spec fn spec_shift() -> u8;

    /// When the component is in a state that can be rendered into a header.
    spec fn component_wf(&self) -> bool;

    /// The raw field value this component renders to.
    spec fn spec_component(&self) -> u8;

    /// The component's mask, as executable code.
    fn mask() -> (m: u8)
        ensures
            m == Self::spec_mask(),
    ;

    /// The component's shift, as executable code.
    fn shift() -> (s: u8)
        ensures
            s == Self::spec_shift(),
            s < 8,
    ;

    /// Render the component as its raw field value, before shifting.
    fn as_header_component(&self) -> (r: u8)
        requires
            self.component_wf(),
        ensures
            r == self.spec_component(),
    ;
}

/// A value that can be decoded from a header field plus a byte slice.
pub trait FromHeader: Sized {
    /// The rejection this decoder can raise.
    type Error;

    /// What the decoder returns for the given header byte and input bytes;
    /// each implementor's relation pins the result down.
    spec fn from_header_rel(header: Header, bytes: Seq<u8>, r: Result<Self, Self::Error>) -> bool;

    /// Decode a value of this type from the header and the byte slice.
    fn from_header(header: &Header, bytes: &[u8]) -> (r: Result<Self, Self::Error>)
        ensures
            Self::from_header_rel(*header, bytes@, r),
    ;
}

impl Header {
    /// The raw byte this header holds.
    pub closed spec fn spec_byte(&self) -> u8 {
        self.0
    }

    /// Clear a component's bit-field and write the component's value into it.
    ///
    /// Bits outside the component's mask are left untouched.
    pub fn set_bits<T: HeaderComponent>(&mut self, component: T)
        requires
            component.component_wf(),
        ensures
            final(self).spec_byte() == (old(self).spec_byte() & !T::spec_mask()) | (
            component.spec_component() << T::spec_shift()),
    {
        self.0 &= !T::mask();
        self.0 |= component.as_header_component() << T::shift();
    }

    /// Write a component into the header, by value.
    pub fn set<T: HeaderComponent>(self, component: T) -> (r: Self)
        requires
            component.component_wf(),
        ensures
            r.spec_byte() == (self.spec_byte() & !T::spec_mask()) | (component.spec_component()
                << T::spec_shift()),
    {
        let mut written = self;
        written.set_bits(component);
        written
    }

    /// Read a component's raw field value back out of the header.
    ///
    /// The phantom argument only picks the component type.
    pub fn get_bits<T: HeaderComponent>(&self, _witness: Option<T>) -> (r: u8)
        ensures
            r == (self.spec_byte() & T::spec_mask()) >> T::spec_shift(),
    {
        (self.0 & T::mask()) >> T::shift()
    }

    /// A header holding only the given component's field.
    pub fn from_component<T: HeaderComponent>(component: T) -> (r: Self)
        requires
            component.component_wf(),
        ensures
            r.spec_byte() == component.spec_component() << T::spec_shift(),
    {
        let ghost m = T::spec_mask();
        let ghost x = component.spec_component() << T::spec_shift();
        let r = Header(0).set(component);
        proof {
            assert((0u8 & !m) | x == x) by (bit_vector);
        }
        r
    }

    /// Wrap a raw byte as a header, unchecked.
    pub fn from_byte(byte: u8) -> (r: Self)
        ensures
            r.spec_byte() == byte,
    {
        Self(byte)
    }

    /// Decode a component of type `T` out of this header and the bytes.
    pub fn to_component<T: FromHeader>(&self, bytes: &[u8]) -> (r: Result<T, T::Error>)
        ensures
            T::from_header_rel(*self, bytes@, r),
    {
        T::from_header(self, bytes)
    }
}

impl<T: HeaderComponent> HeaderComponent for &T {
    open spec fn spec_mask() -> u8 {
        T::spec_mask()
    }

    open spec fn spec_shift() -> u8 {
        T::spec_shift()
    }

    open spec fn component_wf(&self) -> bool {
        (**self).component_wf()
    }

    open spec fn spec_component(&self) -> u8 {
        (**self).spec_component()
    }

    fn mask() -> u8 {
        T::mask()
    }

    fn shift() -> u8 {
        T::shift()
    }

    fn as_header_component(&self) -> u8 {
        (**self).as_header_component()
    }
}

impl HeaderComponent for Header {
    open spec fn spec_mask() -> u8 {
        0xFF
    }

    open spec fn spec_shift() -> u8 {
        0
    }

    open spec fn component_wf(&self) -> bool {
        true
    }

    open spec fn spec_component(&self) -> u8 {
        self.spec_byte()
    }

    fn mask() -> u8 {
        0xFF
    }

    fn shift() -> u8 {
        0
    }

    fn as_header_component(&self) -> u8 {
        self.0
    }
}

/// The two fields of a header byte are independent: writing the identifier
/// shape `s` and the nickname length code `g` into any starting byte gives
/// the same byte in either order, and reading either field back yields the
/// value that was written, whatever was written first.
pub proof fn lemma_field_independence(b: u8, s: u8, g: u8)
    by (bit_vector)
    requires
        s <= 7,
        g <= 31,
    ensures
        ((((b & !0xE0) | (s << 5)) & !0x1F) | (g << 0)) == ((((b & !0x1F) | (g << 0)) & !0xE0) | (
        s << 5)),
        (((((b & !0xE0) | (s << 5)) & !0x1F) | (g << 0)) & 0xE0) >> 5 == s,
        (((((b & !0xE0) | (s << 5)) & !0x1F) | (g << 0)) & 0x1F) >> 0 == g,
{
}

impl Default for Header {
    /// An all-zero header: no identifier shape, a one-glyph nickname code.
    fn default() -> (r: Self)
        ensures
            r.spec_byte() == 0,
    {
        Header(0)
    }
}

} // verus!

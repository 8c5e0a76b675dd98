//! The typed-stream header: a one-byte header carrying a nonzero 3-bit type
//! tag and a 5-bit size field.
//!
//! This header fronts the typed transactions of the stream protocol (a
//! connect note, a disconnect note, plain text). Its tag may never be zero:
//! a zero tag would make the header byte of an empty transaction collide
//! with the frame terminator.

use vstd::prelude::*;

use crate::text::append_slice;

verus! {

/// A one-byte stream header: `Uid` tag in the high three bits, `Offset`
/// size in the low five.
#[derive(Clone, Copy, Debug, PartialEq, Eq, Structural)]
pub struct Header(u8);

/// A transaction type tag: a value from 1 to 7, carried in the high three
/// bits of a header.
#[derive(Clone, Copy, Debug, PartialEq, Eq, Structural)]
pub struct Uid(u8);

/// A size field: a value from 0 to 31, carried in the low five bits of a
/// header.
#[derive(Clone, Copy, Debug, PartialEq, Eq, Structural)]
pub struct Offset(u8);

impl Uid {
    /// The header bits that belong to the tag.
    pub const MASK: u8 = 0xE0;

    /// How far the tag is shifted into the header byte.
    pub const SHIFT: u8 = 5;

    /// The tag's value, between 1 and 7.
    pub closed spec fn spec_value(&self) -> u8 {
        self.0
    }

    /// A tag is well-formed when it is nonzero and fits its three bits.
    pub open spec fn wf(&self) -> bool {
        1 <= self.spec_value() <= 7
    }

    /// Read a tag out of a full header byte, masking the size bits away
    /// first; `None` when the tag bits are all zero.
    pub fn new_lossy(unsanitised: u8) -> (r: Option<Self>)
        ensures
            r is Some <==> unsanitised >> 5 != 0,
            r matches Some(u) ==> u.wf() && u.spec_value() == unsanitised >> 5,
    {
        proof {
            assert((unsanitised & 0xE0) & !0xE0u8 == 0 && (unsanitised & 0xE0) >> 5 == unsanitised
                >> 5 && unsanitised >> 5 <= 7) by (bit_vector);
        }
        Self::new(unsanitised & 0xE0)
    }

    /// Read a tag out of a byte that must hold nothing but tag bits;
    /// `None` when other bits are set or the tag bits are all zero.
    pub fn new(unsanitised: u8) -> (r: Option<Self>)
        ensures
            r is Some <==> (unsanitised & !0xE0 == 0 && unsanitised >> 5 != 0),
            r matches Some(u) ==> u.wf() && u.spec_value() == unsanitised >> 5,
    {
        if unsanitised & !0xE0 != 0 {
            return None;
        }
        let aligned = unsanitised >> 5;
        proof {
            assert(unsanitised >> 5 <= 7) by (bit_vector);
        }
        if aligned == 0 {
            return None;
        }
        Some(Uid(aligned))
    }

    /// Whether a raw byte holds nothing outside the tag bits.
    pub fn valid_by_val(uid: u8) -> (r: bool)
        ensures
            r == (uid & !0xE0 == 0),
    {
        uid & !0xE0 == 0
    }

    /// The tag's value.
    pub fn to_u8(self) -> (r: u8)
        ensures
            r == self.spec_value(),
    {
        self.0
    }

    /// The tag, shifted into its place in a header byte.
    pub fn to_raw_u8(self) -> (r: u8)
        requires
            self.wf(),
        ensures
            r == self.spec_value() << 5,
    {
        proof {
            let v = self.spec_value();
            assert(v << 5 < 256) by (bit_vector)
                requires
                    v <= 7,
            ;
        }
        self.0 << 5
    }
}

impl Offset {
    /// The header bits that belong to the size field.
    pub const MASK: u8 = 0x1F;

    /// The size value, between 0 and 31.
    pub closed spec fn spec_value(&self) -> u8 {
        self.0
    }

    /// A size field is well-formed when it fits its five bits.
    pub open spec fn wf(&self) -> bool {
        self.spec_value() <= 31
    }

    /// Read a size field out of a full header byte, masking the tag bits
    /// away.
    pub fn new_lossy(unsanitised: u8) -> (r: Self)
        ensures
            r.wf(),
            r.spec_value() == unsanitised & 0x1F,
    {
        proof {
            assert(unsanitised & 0x1F <= 31) by (bit_vector);
        }
        Offset(unsanitised & 0x1F)
    }

    /// Read a size field out of a byte that must hold nothing but size
    /// bits; `None` when other bits are set.
    pub fn new(unsanitised: u8) -> (r: Option<Self>)
        ensures
            r is Some <==> unsanitised & !0x1F == 0,
            r matches Some(o) ==> o.wf() && o.spec_value() == unsanitised & 0x1F,
    {
        if unsanitised & !0x1F != 0 {
            return None;
        }
        Some(Self::new_lossy(unsanitised))
    }

    /// The size field of a transaction without a sized body.
    pub fn new_unsized() -> (r: Self)
        ensures
            r.wf(),
            r.spec_value() == 0,
    {
        Offset(0)
    }

    /// The size value.
    pub fn to_u8(self) -> (r: u8)
        ensures
            r == self.spec_value(),
    {
        self.0
    }
}

/// A transaction's size note: either a representable five-bit count or the
/// marker of an unsized, terminator-delimited body.
#[derive(Clone, Copy, Debug, PartialEq, Eq, Structural)]
pub enum StreamSize {
    /// A body of the given size, between 1 and 31.
    Representable(u8),
    /// A body whose size the header does not carry.
    Unsized,
}

impl StreamSize {
    /// The size bits of a header byte.
    pub const MASK: u8 = 0x1F;

    /// Read a size note out of a byte holding nothing but size bits;
    /// `None` when other bits are set.
    pub fn from_byte(byte: u8) -> (r: Option<Self>)
        ensures
            r is Some <==> byte & !0x1F == 0,
            r matches Some(s) ==> s == Self::from_byte_lossy_spec(byte),
    {
        if byte & !0x1F != 0 {
            return None;
        }
        Some(Self::from_byte_lossy(byte))
    }

    /// What masking a byte down to its size bits reads as.
    pub open spec fn from_byte_lossy_spec(byte: u8) -> Self {
        if byte & 0x1F == 0 {
            StreamSize::Unsized
        } else {
            StreamSize::Representable(byte & 0x1F)
        }
    }

    /// Read a size note out of a full header byte, masking the tag bits
    /// away; all-zero size bits mean an unsized body.
    pub fn from_byte_lossy(byte: u8) -> (r: Self)
        ensures
            r == Self::from_byte_lossy_spec(byte),
    {
        let masked = byte & 0x1F;
        if masked == 0 {
            StreamSize::Unsized
        } else {
            StreamSize::Representable(masked)
        }
    }

    /// The size note as its header bits: an unsized body writes zero.
    pub fn to_byte(self) -> (r: u8)
        ensures
            r == (match self {
                StreamSize::Unsized => 0u8,
                StreamSize::Representable(x) => x,
            }),
    {
        match self {
            StreamSize::Unsized => 0,
            StreamSize::Representable(x) => x,
        }
    }
}

impl Header {
    /// The bits of a header byte that carry anything.
    pub const MASK: u8 = 0xFF;

    /// The raw header byte.
    pub closed spec fn spec_byte(&self) -> u8 {
        self.0
    }

    /// Read a header out of a raw byte; `None` when its tag bits are all
    /// zero.
    pub fn new(unsanitised: u8) -> (r: Option<Self>)
        ensures
            r is Some <==> unsanitised >> 5 != 0,
            r matches Some(h) ==> h.spec_byte() == unsanitised,
    {
        let offset = Offset::new_lossy(unsanitised);
        let uid = match Uid::new_lossy(unsanitised) {
            Some(uid) => uid,
            None => {
                return None;
            },
        };
        let h = Self::new_offset_uid(offset, uid);
        proof {
            let b = unsanitised;
            assert(((b >> 5) << 5) | (b & 0x1F) == b) by (bit_vector);
        }
        Some(h)
    }

    /// Pack a size field and a tag into one header byte.
    pub fn new_offset_uid(offset: Offset, uid: Uid) -> (r: Self)
        requires
            offset.wf(),
            uid.wf(),
        ensures
            r.spec_byte() == (uid.spec_value() << 5) | offset.spec_value(),
    {
        proof {
            let u = uid.spec_value();
            let o = offset.spec_value();
            assert((u << 5) | o < 256) by (bit_vector)
                requires
                    u <= 7,
                    o <= 31,
            ;
        }
        Header(uid.to_raw_u8() | offset.to_u8())
    }

    /// Whether the header announces a sized body beside the tag.
    pub fn has_two_elem(&self) -> (r: bool)
        ensures
            r == (self.spec_byte() & 0x1F != 0),
    {
        self.0 & 0x1F != 0
    }

    /// Whether the header carries a tag alone.
    pub fn has_one_elem(&self) -> (r: bool)
        ensures
            r == (self.spec_byte() & 0x1F == 0),
    {
        self.0 & 0x1F == 0
    }

    /// The raw header byte, reassembled from its two fields.
    pub fn to_u8(&self) -> (r: u8)
        ensures
            r == self.spec_byte(),
    {
        proof {
            let b = self.spec_byte();
            assert((b & 0x1F) | (b & 0xE0) == b) by (bit_vector);
        }
        self.offset() | self.uid_raw()
    }

    /// The size field's bits, in place.
    pub fn offset(&self) -> (r: u8)
        ensures
            r == self.spec_byte() & 0x1F,
    {
        self.0 & 0x1F
    }

    /// The tag's bits, in place.
    pub fn uid_raw(&self) -> (r: u8)
        ensures
            r == self.spec_byte() & 0xE0,
    {
        self.0 & 0xE0
    }

    /// The tag's value.
    pub fn uid(&self) -> (r: u8)
        ensures
            r == (self.spec_byte() & 0xE0) >> 5,
    {
        proof {
            let b = self.spec_byte();
            assert((b & 0xE0) >> 5 <= 7) by (bit_vector);
        }
        self.uid_raw() >> 5
    }
}

/// Frame one typed transaction: its header byte, its content, and a
/// terminator — added only where the content does not already end in one.
pub fn frame_transaction(header: Header, content: &[u8]) -> (r: Vec<u8>)
    ensures
        r@ == (if content@.len() > 0 && content@.last() == 0 {
            seq![header.spec_byte()] + content@
        } else {
            seq![header.spec_byte()] + content@ + seq![0u8]
        }),
{
    let mut out: Vec<u8> = Vec::new();
    out.push(header.to_u8());
    proof {
        assert(out@ =~= seq![header.spec_byte()]);
    }
    append_slice(&mut out, content);
    let n = content.len();
    if n == 0 || content[n - 1] != 0 {
        out.push(0);
        proof {
            assert(out@ =~= seq![header.spec_byte()] + content@ + seq![0u8]);
        }
    }
    out
}

} // verus!

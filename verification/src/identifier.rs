//! The 32-bit session identifier and its compaction codec.
//!
//! A nonzero identifier travels in 1 to 4 bytes: its big-endian form is
//! stripped of all-zero bytes on whichever side has more of them, preferring
//! the leading side on a tie. The header's 3-bit shape field records the side
//! (high bit clear: leading bytes dropped, value right-aligned; high bit set:
//! trailing bytes dropped, value left-aligned) and the count of dropped bytes.

use vstd::prelude::*;

use crate::errors::IdentifierError;
use crate::header::FromHeader;
use crate::header::Header;
use crate::header::HeaderComponent;

verus! {

/// A session identifier; `0` is the reserved "unset" sentinel.
#[derive(Clone, Copy, Debug, PartialEq, Eq, Structural, Hash)]
pub struct Identifier(u32);

/// The four bytes of `v`, most significant first.
pub open spec fn be_bytes(v: u32) -> Seq<u8> {
    seq![
        (v >> 24) as u8,
        ((v >> 16) & 0xFF) as u8,
        ((v >> 8) & 0xFF) as u8,
        (v & 0xFF) as u8,
    ]
}

/// How many all-zero bytes lead the big-endian form of `v`.
pub open spec fn lead_zero_bytes(v: u32) -> int {
    if be_bytes(v)[0] != 0 {
        0
    } else if be_bytes(v)[1] != 0 {
        1
    } else if be_bytes(v)[2] != 0 {
        2
    } else if be_bytes(v)[3] != 0 {
        3
    } else {
        4
    }
}

/// How many all-zero bytes trail the big-endian form of `v`.
pub open spec fn trail_zero_bytes(v: u32) -> int {
    if be_bytes(v)[3] != 0 {
        0
    } else if be_bytes(v)[2] != 0 {
        1
    } else if be_bytes(v)[1] != 0 {
        2
    } else if be_bytes(v)[0] != 0 {
        3
    } else {
        4
    }
}

/// The 3-bit shape field for `v`: the dropped-byte count in the low two
/// bits, plus 4 when the trailing side was dropped.
pub open spec fn shape_of(v: u32) -> u8 {
    if lead_zero_bytes(v) >= trail_zero_bytes(v) {
        lead_zero_bytes(v) as u8
    } else {
        (4 + trail_zero_bytes(v)) as u8
    }
}

/// The bytes a nonzero identifier puts on the wire: its big-endian form with
/// the dropped side stripped.
pub open spec fn ident_bytes(v: u32) -> Seq<u8> {
    if lead_zero_bytes(v) >= trail_zero_bytes(v) {
        be_bytes(v).skip(lead_zero_bytes(v))
    } else {
        be_bytes(v).take(4 - trail_zero_bytes(v))
    }
}

/// A sequence of `n` zero bytes.
pub open spec fn zero_bytes(n: int) -> Seq<u8> {
    Seq::new(n as nat, |i: int| 0u8)
}

/// The big-endian 32-bit value of a 4-byte sequence.
pub open spec fn u32_of_be(s: Seq<u8>) -> u32
    recommends
        s.len() == 4,
{
    ((s[0] as u32) << 24) | ((s[1] as u32) << 16) | ((s[2] as u32) << 8) | (s[3] as u32)
}

impl View for Identifier {
    type V = u32;

    closed spec fn view(&self) -> u32 {
        self.0
    }
}

impl Identifier {
    /// The fewest bytes an identifier occupies on the wire.
    pub const MIN_LENGTH: usize = 1;

    /// The most bytes an identifier occupies on the wire.
    pub const MAX_LENGTH: usize = 4;

    /// Wrap a raw 32-bit value as an identifier.
    pub fn new(value: u32) -> (r: Self)
        ensures
            r@ == value,
    {
        Self(value)
    }

    /// The unset sentinel.
    pub fn empty() -> (r: Self)
        ensures
            r@ == 0,
    {
        Self(0)
    }

    /// Whether this identifier is still the unset sentinel.
    pub fn is_unset(&self) -> (r: bool)
        ensures
            r == (self@ == 0),
    {
        self.0 == 0
    }

    /// The raw 32-bit value.
    pub fn value(&self) -> (r: u32)
        ensures
            r == self@,
    {
        self.0
    }

    /// The compacted wire form of this identifier.
    pub fn as_bytes(&self) -> (r: Vec<u8>)
        ensures
            r@ == ident_bytes(self@),
    {
        let v = self.0;
        let mut quad: Vec<u8> = Vec::new();
        quad.push((v >> 24) as u8);
        quad.push(((v >> 16) & 0xFF) as u8);
        quad.push(((v >> 8) & 0xFF) as u8);
        quad.push((v & 0xFF) as u8);
        proof {
            assert(quad@ =~= be_bytes(v));
        }
        let lead = count_lead(&quad, Ghost(v));
        let trail = count_trail(&quad, Ghost(v));
        let mut out: Vec<u8> = Vec::new();
        let start: usize = if lead >= trail {
            lead
        } else {
            0
        };
        let end: usize = if lead >= trail {
            4
        } else {
            4 - trail
        };
        let mut i: usize = start;
        while i < end
            invariant
                start <= i <= end <= 4,
                quad@ == be_bytes(v),
                out@ == quad@.subrange(start as int, i as int),
            decreases end - i,
        {
            out.push(quad[i]);
            proof {
                assert(out@ =~= quad@.subrange(start as int, i + 1));
            }
            i += 1;
        }
        proof {
            if lead >= trail {
                assert(out@ =~= be_bytes(v).skip(lead_zero_bytes(v)));
            } else {
                assert(out@ =~= be_bytes(v).take(4 - trail_zero_bytes(v)));
            }
        }
        out
    }
}

/// Count the zero bytes leading a 4-byte big-endian form.
fn count_lead(quad: &Vec<u8>, Ghost(v): Ghost<u32>) -> (r: usize)
    requires
        quad@ == be_bytes(v),
    ensures
        r == lead_zero_bytes(v),
        r <= 4,
{
    if quad[0] != 0 {
        0
    } else if quad[1] != 0 {
        1
    } else if quad[2] != 0 {
        2
    } else if quad[3] != 0 {
        3
    } else {
        4
    }
}

/// Count the zero bytes trailing a 4-byte big-endian form.
fn count_trail(quad: &Vec<u8>, Ghost(v): Ghost<u32>) -> (r: usize)
    requires
        quad@ == be_bytes(v),
    ensures
        r == trail_zero_bytes(v),
        r <= 4,
{
    if quad[3] != 0 {
        0
    } else if quad[2] != 0 {
        1
    } else if quad[1] != 0 {
        2
    } else if quad[0] != 0 {
        3
    } else {
        4
    }
}

impl HeaderComponent for Identifier {
    open spec fn spec_mask() -> u8 {
        0xE0
    }

    open spec fn spec_shift() -> u8 {
        5
    }

    open spec fn component_wf(&self) -> bool {
        true
    }

    open spec fn spec_component(&self) -> u8 {
        shape_of(self@)
    }

    fn mask() -> u8 {
        0xE0
    }

    fn shift() -> u8 {
        5
    }

    fn as_header_component(&self) -> (r: u8)
    {
        let v = self.0;
        let mut quad: Vec<u8> = Vec::new();
        quad.push((v >> 24) as u8);
        quad.push(((v >> 16) & 0xFF) as u8);
        quad.push(((v >> 8) & 0xFF) as u8);
        quad.push((v & 0xFF) as u8);
        proof {
            assert(quad@ =~= be_bytes(v));
        }
        let lead = count_lead(&quad, Ghost(v));
        let trail = count_trail(&quad, Ghost(v));
        if lead >= trail {
            lead as u8
        } else {
            4 + (trail as u8)
        }
    }
}

impl FromHeader for Identifier {
    type Error = IdentifierError;

    open spec fn from_header_rel(
        header: Header,
        bytes: Seq<u8>,
        r: Result<Self, IdentifierError>,
    ) -> bool {
        let data = (header.spec_byte() & 0xE0) >> 5;
        let take = (data & 0x03) as int;
        let expected = 4 - take;
        if bytes.len() != expected {
            r == Err::<Identifier, IdentifierError>(
                IdentifierError::LengthMismatch(bytes.len() as usize, expected as usize),
            )
        } else {
            let be = if data & 0x04 == 0 {
                zero_bytes(take) + bytes
            } else {
                bytes + zero_bytes(take)
            };
            let v = u32_of_be(be);
            if v == 0 {
                r == Err::<Identifier, IdentifierError>(IdentifierError::Zero)
            } else {
                r matches Ok(id) && id@ == v
            }
        }
    }

    fn from_header(header: &Header, bytes: &[u8]) -> (r: Result<Self, IdentifierError>) {
        let data = header.get_bits::<Identifier>(None);
        let low = data & 0x03;
        proof {
            assert(data & 0x03 <= 3) by (bit_vector);
        }
        let take = low as usize;
        let expected: usize = 4 - take;
        let len = bytes.len();
        if len != expected {
            return Err(IdentifierError::LengthMismatch(len, expected));
        }
        let mut quad: Vec<u8> = Vec::new();
        proof {
            assert(quad@ =~= zero_bytes(0));
            assert(quad@ =~= bytes@.take(0));
        }
        if data & 0x04 == 0 {
            let mut i: usize = 0;
            while i < take
                invariant
                    i <= take,
                    quad@ == zero_bytes(i as int),
                decreases take - i,
            {
                quad.push(0);
                proof {
                    assert(quad@ =~= zero_bytes(i + 1));
                }
                i += 1;
            }
            let mut j: usize = 0;
            proof {
                assert(quad@ =~= zero_bytes(take as int) + bytes@.take(0));
            }
            while j < len
                invariant
                    j <= len == bytes@.len(),
                    take + len == 4,
                    quad@ == zero_bytes(take as int) + bytes@.take(j as int),
                decreases len - j,
            {
                quad.push(bytes[j]);
                proof {
                    assert(quad@ =~= zero_bytes(take as int) + bytes@.take(j + 1));
                }
                j += 1;
            }
            proof {
                assert(quad@ =~= zero_bytes(take as int) + bytes@);
            }
        } else {
            let mut j: usize = 0;
            while j < len
                invariant
                    j <= len == bytes@.len(),
                    take + len == 4,
                    quad@ == bytes@.take(j as int),
                decreases len - j,
            {
                quad.push(bytes[j]);
                proof {
                    assert(quad@ =~= bytes@.take(j + 1));
                }
                j += 1;
            }
            let mut i: usize = 0;
            proof {
                assert(quad@ =~= bytes@ + zero_bytes(0));
            }
            while i < take
                invariant
                    i <= take,
                    take + len == 4,
                    quad@ == bytes@ + zero_bytes(i as int),
                decreases take - i,
            {
                quad.push(0);
                proof {
                    assert(quad@ =~= bytes@ + zero_bytes(i + 1));
                }
                i += 1;
            }
            proof {
                assert(quad@ =~= bytes@ + zero_bytes(take as int));
            }
        }
        let v: u32 = ((quad[0] as u32) << 24) | ((quad[1] as u32) << 16) | ((quad[2] as u32) << 8)
            | (quad[3] as u32);
        if v == 0 {
            Err(IdentifierError::Zero)
        } else {
            Ok(Identifier(v))
        }
    }
}

/// A process-wide source of fresh identifiers.
///
/// It hands out strictly increasing nonzero values, starting at 1; no code
/// path other than [`IdentifierAllocator::allocate`] may touch the counter.
pub struct IdentifierAllocator {
    next: u32,
}

impl IdentifierAllocator {
    /// What the allocator will hand out next.
    pub closed spec fn spec_next(&self) -> u32 {
        self.next
    }

    /// A fresh allocator, about to hand out `1`.
    pub fn new() -> (r: Self)
        ensures
            r.spec_next() == 1,
    {
        IdentifierAllocator { next: 1 }
    }

    /// Hand out the current counter value and step the counter.
    ///
    /// Never returns the sentinel `0`, and never repeats a value within one
    /// allocator's lifetime.
    pub fn allocate(&mut self) -> (r: Identifier)
        requires
            old(self).spec_next() >= 1,
            old(self).spec_next() < u32::MAX,
        ensures
            r@ == old(self).spec_next(),
            r@ != 0,
            final(self).spec_next() == old(self).spec_next() + 1,
    {
        let instance = Identifier(self.next);
        self.next += 1;
        instance
    }
}

/// A shape field always fits its three header bits.
pub proof fn lemma_shape_bound(v: u32)
    ensures
        shape_of(v) <= 7,
{
}

/// What the shape field says about a nonzero identifier's wire bytes: their
/// count is 4 less the announced dropped-byte count, and zero-filling the
/// dropped side recovers the value.
pub proof fn lemma_shape_decode(v: u32)
    requires
        v != 0,
    ensures
        shape_of(v) <= 7,
        ident_bytes(v).len() == 4 - ((shape_of(v) & 0x03) as int),
        1 <= ident_bytes(v).len() <= 4,
        ({
            let take = (shape_of(v) & 0x03) as int;
            let be = if shape_of(v) & 0x04 == 0 {
                zero_bytes(take) + ident_bytes(v)
            } else {
                ident_bytes(v) + zero_bytes(take)
            };
            u32_of_be(be) == v && be =~= be_bytes(v)
        }),
{
    let b0 = (v >> 24) as u8;
    let b1 = ((v >> 16) & 0xFF) as u8;
    let b2 = ((v >> 8) & 0xFF) as u8;
    let b3 = (v & 0xFF) as u8;
    assert(!(b0 == 0 && b1 == 0 && b2 == 0 && b3 == 0)) by (bit_vector)
        requires
            v != 0,
            b0 == (v >> 24) as u8,
            b1 == ((v >> 16) & 0xFF) as u8,
            b2 == ((v >> 8) & 0xFF) as u8,
            b3 == (v & 0xFF) as u8,
    ;
    let lead = lead_zero_bytes(v);
    let trail = trail_zero_bytes(v);
    assert(0 <= lead <= 3 && 0 <= trail <= 3);
    let data = shape_of(v);
    if lead >= trail {
        assert(data == lead as u8);
        assert(data & 0x03 == data && data & 0x04 == 0) by (bit_vector)
            requires
                data <= 3,
        ;
        assert(zero_bytes((data & 0x03) as int) + ident_bytes(v) =~= be_bytes(v));
    } else {
        assert(data == (4 + trail) as u8);
        assert(data & 0x03 == data - 4 && data & 0x04 != 0) by (bit_vector)
            requires
                4 <= data <= 7,
        ;
        assert(ident_bytes(v) + zero_bytes((data & 0x03) as int) =~= be_bytes(v));
    }
    assert((((b0 as u32) << 24) | ((b1 as u32) << 16) | ((b2 as u32) << 8) | (b3 as u32)) == v)
        by (bit_vector)
        requires
            b0 == (v >> 24) as u8,
            b1 == ((v >> 16) & 0xFF) as u8,
            b2 == ((v >> 8) & 0xFF) as u8,
            b3 == (v & 0xFF) as u8,
    ;
    assert(u32_of_be(be_bytes(v)) == v);
}

/// The compaction codec is lossless and minimal: for any nonzero identifier,
/// whatever decoding its wire bytes under a header carrying its shape field
/// returns is the identifier itself, and the wire form is exactly 4 bytes
/// less the dropped all-zero bytes of the wider side.
pub proof fn lemma_identifier_round_trip(
    v: u32,
    header: Header,
    r: Result<Identifier, IdentifierError>,
)
    requires
        v != 0,
        (header.spec_byte() & 0xE0) >> 5 == shape_of(v),
        Identifier::from_header_rel(header, ident_bytes(v), r),
    ensures
        r matches Ok(id) && id@ == v,
        ident_bytes(v).len() == 4 - (if lead_zero_bytes(v) >= trail_zero_bytes(v) {
            lead_zero_bytes(v)
        } else {
            trail_zero_bytes(v)
        }),
{
    lemma_shape_decode(v);
}

} // verus!

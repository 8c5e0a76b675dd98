//! An owned, bounded, growable UTF-8 text buffer with codepoint-indexed
//! editing.
//!
//! A nickname holds at most 32 codepoints and at most 128 bytes. Editing
//! operations are addressed by codepoint index, never by byte offset, and
//! never split a codepoint's byte range. The buffer tracks its byte length,
//! a modelled allocation capacity, and its codepoint count.

use vstd::prelude::*;
use vstd::utf8::decode_utf8;
use vstd::utf8::decode_utf8_encode_utf8;
use vstd::utf8::encode_scalar;
use vstd::utf8::encode_utf8;
use vstd::utf8::encode_utf8_decode_utf8;
use vstd::utf8::encode_utf8_first_scalar;
use vstd::utf8::encode_utf8_valid_utf8;
use vstd::utf8::valid_utf8;

use crate::errors::NicknameError;
use crate::header::FromHeader;
use crate::header::Header;
use crate::header::HeaderComponent;
use crate::text::copy_range;
use crate::text::decode_single;
use crate::text::encode_char;
use crate::text::glyph_byte_offset;
use crate::text::lemma_encode_concat;
use crate::text::lemma_encode_len;
use crate::text::lemma_encode_single;
use crate::text::lemma_encode_split;
use crate::text::scalar_width;
use crate::text::string_from_utf8;

verus! {

/// A buffer for UTF-8 encoded user nicknames.
///
/// Its mathematical value is the sequence of codepoints it holds.
#[derive(Debug)]
pub struct Nickname {
    pub(crate) bytes: Vec<u8>,
    pub(crate) allocated: u8,
    pub(crate) glyph_count: u8,
}

/// The capacity after the growth that an edit needing `needed` bytes forces:
/// nothing when the bytes already fit; otherwise the doubling growth of
/// [`Nickname::reserve`] observed at length `len`, topped up to `needed` by
/// [`Nickname::reserve_exact`] where the doubling did not reach it.
pub open spec fn grown_capacity(cap: int, len: int, needed: int) -> int {
    if needed <= cap {
        cap
    } else {
        let doubled = if (cap + needed) * 2 < 128 {
            (cap + needed) * 2
        } else {
            128
        };
        let after = if len < cap {
            cap
        } else {
            doubled
        };
        if needed <= after {
            after
        } else {
            needed
        }
    }
}

impl View for Nickname {
    type V = Seq<char>;

    closed spec fn view(&self) -> Seq<char> {
        decode_utf8(self.bytes@)
    }
}

impl Nickname {
    /// The most bytes a nickname may occupy.
    pub const MAX_LENGTH: usize = 128;

    /// The fewest bytes a transmittable nickname occupies.
    pub const MIN_LENGTH: usize = 1;

    /// The most codepoints a nickname may hold.
    pub const MAX_GLYPH_COUNT: usize = 32;

    /// The buffer's internal consistency: the bytes are valid UTF-8, they
    /// fit the modelled allocation, the allocation never exceeds 128 bytes,
    /// and the codepoint count is exactly what the bytes decode to.
    pub open(crate) spec fn wf(&self) -> bool {
        &&& valid_utf8(self.bytes@)
        &&& self.bytes@.len() <= self.allocated as int
        &&& self.allocated <= 128
        &&& self.glyph_count as int == decode_utf8(self.bytes@).len()
        &&& self.glyph_count <= 32
    }

    /// The modelled allocation capacity, in bytes.
    pub open(crate) spec fn spec_capacity(&self) -> int {
        self.allocated as int
    }

    /// Everything the well-formedness of the buffer gives over its view.
    proof fn lemma_view(&self)
        requires
            self.wf(),
        ensures
            self.bytes@ == encode_utf8(self@),
            self@.len() == self.glyph_count,
            self@.len() <= self.bytes@.len() <= self.spec_capacity() <= 128,
            self@.len() <= 32,
    {
        decode_utf8_encode_utf8(self.bytes@);
        lemma_encode_len(self@);
    }

    /// The view of a well-formed buffer is short: at most 32 codepoints, at
    /// most 128 encoded bytes.
    pub proof fn lemma_bounds(&self)
        requires
            self.wf(),
        ensures
            self@.len() <= 32,
            self@.len() <= encode_utf8(self@).len() <= 128,
    {
        self.lemma_view();
    }

    /// The modelled allocation, in bytes.
    pub fn capacity(&self) -> (r: usize)
        ensures
            r == self.spec_capacity(),
    {
        self.allocated as usize
    }

    /// How many more bytes fit before the allocation is exhausted.
    pub fn available_bytes(&self) -> (r: usize)
        requires
            self.wf(),
        ensures
            r == self.spec_capacity() - encode_utf8(self@).len(),
    {
        proof {
            self.lemma_view();
        }
        self.allocated as usize - self.bytes.len()
    }

    /// The buffer's byte length.
    pub fn len(&self) -> (r: usize)
        requires
            self.wf(),
        ensures
            r == encode_utf8(self@).len(),
    {
        proof {
            self.lemma_view();
        }
        self.bytes.len()
    }

    /// How many codepoints the buffer holds.
    pub fn glyph_count(&self) -> (r: usize)
        requires
            self.wf(),
        ensures
            r == self@.len(),
    {
        proof {
            self.lemma_view();
        }
        self.glyph_count as usize
    }

    /// Whether the buffer holds no text at all.
    pub fn is_empty(&self) -> (r: bool)
        requires
            self.wf(),
        ensures
            r == (self@.len() == 0),
    {
        proof {
            self.lemma_view();
            lemma_encode_len(self@);
        }
        self.bytes.len() == 0
    }

    /// An empty nickname with no allocation at all.
    pub fn new() -> (r: Self)
        ensures
            r.wf(),
            r@ =~= Seq::<char>::empty(),
            r.spec_capacity() == 0,
    {
        let r = Nickname { bytes: Vec::new(), allocated: 0, glyph_count: 0 };
        proof {
            assert(r.bytes@ =~= Seq::<u8>::empty());
        }
        r
    }

    /// An empty nickname whose allocation quadruples the asked-for capacity,
    /// clamped to the maximum; refused when the ask already exceeds it.
    pub fn with_capacity(capacity: u8) -> (r: Option<Self>)
        ensures
            r is Some <==> capacity <= 128,
            r matches Some(n) ==> n.wf() && n@ =~= Seq::<char>::empty() && n.spec_capacity() == (
            if capacity * 4 < 128 {
                capacity * 4
            } else {
                128
            }),
    {
        if capacity > 128 {
            return None;
        }
        let wanted = (capacity as usize) * 4;
        let clamped: u8 = if wanted >= 128 {
            128
        } else {
            wanted as u8
        };
        let n = Nickname { bytes: Vec::new(), allocated: clamped, glyph_count: 0 };
        proof {
            assert(n.bytes@ =~= Seq::<u8>::empty());
        }
        Some(n)
    }

    /// Grow the allocation to exactly `capacity + additional` bytes, clamped
    /// to the maximum. The text is untouched.
    pub fn reserve_exact(&mut self, additional: u8)
        requires
            old(self).wf(),
        ensures
            final(self).wf(),
            final(self)@ == old(self)@,
            final(self).spec_capacity() == (if old(self).spec_capacity() + additional < 128 {
                old(self).spec_capacity() + additional
            } else {
                128
            }),
    {
        let sum = self.allocated as usize + additional as usize;
        self.allocated = if sum >= 128 {
            128
        } else {
            sum as u8
        };
    }

    /// Double the allocation (measured after adding `additional`), clamped to
    /// the maximum, but only when the text has reached the allocation. The
    /// text is untouched.
    pub fn reserve(&mut self, additional: u8)
        requires
            old(self).wf(),
        ensures
            final(self).wf(),
            final(self)@ == old(self)@,
            final(self).spec_capacity() == (if encode_utf8(old(self)@).len()
                < old(self).spec_capacity() {
                old(self).spec_capacity()
            } else if (old(self).spec_capacity() + additional) * 2 < 128 {
                (old(self).spec_capacity() + additional) * 2
            } else {
                128
            }),
    {
        proof {
            self.lemma_view();
        }
        if self.bytes.len() < self.allocated as usize {
            return ;
        }
        let doubled = (self.allocated as usize + additional as usize) * 2;
        self.allocated = if doubled >= 128 {
            128
        } else {
            doubled as u8
        };
    }

    /// Shrink the allocation to exactly `new_capacity` bytes, provided that
    /// this neither grows the allocation nor cuts into the text.
    pub fn shrink_to(&mut self, new_capacity: u8)
        requires
            old(self).wf(),
        ensures
            final(self).wf(),
            final(self)@ == old(self)@,
            final(self).spec_capacity() == (if new_capacity <= old(self).spec_capacity()
                && encode_utf8(old(self)@).len() <= new_capacity && new_capacity < 128 {
                new_capacity as int
            } else {
                old(self).spec_capacity()
            }),
    {
        proof {
            self.lemma_view();
        }
        if new_capacity as usize > self.allocated as usize || (new_capacity as usize)
            < self.bytes.len() || new_capacity >= 128 {
            return ;
        }
        self.allocated = new_capacity;
    }

    /// Shrink the allocation down to the exact byte length of the text.
    pub fn shrink_to_fit(&mut self)
        requires
            old(self).wf(),
        ensures
            final(self).wf(),
            final(self)@ == old(self)@,
            final(self).spec_capacity() == (if encode_utf8(old(self)@).len()
                != old(self).spec_capacity() {
                encode_utf8(old(self)@).len() as int
            } else {
                old(self).spec_capacity()
            }),
    {
        proof {
            self.lemma_view();
        }
        if self.bytes.len() == self.allocated as usize {
            return ;
        }
        self.allocated = self.bytes.len() as u8;
    }

    /// Forget the text; the allocation stays.
    pub fn clear(&mut self)
        requires
            old(self).wf(),
        ensures
            final(self).wf(),
            final(self)@ =~= Seq::<char>::empty(),
            final(self).spec_capacity() == old(self).spec_capacity(),
    {
        self.bytes.clear();
        self.glyph_count = 0;
        proof {
            assert(self.bytes@ =~= Seq::<u8>::empty());
        }
    }

    /// The text's wire form: its UTF-8 bytes.
    pub fn as_bytes(&self) -> (r: &[u8])
        requires
            self.wf(),
        ensures
            r@ == encode_utf8(self@),
    {
        proof {
            self.lemma_view();
        }
        self.bytes.as_slice()
    }

    /// The text as an owned string.
    pub fn to_text(&self) -> (r: String)
        requires
            self.wf(),
        ensures
            r@ == self@,
    {
        proof {
            self.lemma_view();
        }
        let mut copy: Vec<u8> = Vec::new();
        copy_range(&self.bytes, 0, self.bytes.len(), &mut copy);
        proof {
            assert(copy@ =~= self.bytes@);
        }
        match string_from_utf8(copy) {
            Some(s) => {
                proof {
                    encode_utf8_decode_utf8(s@);
                }
                s
            },
            None => {
                proof {
                    assert(false);
                }
                String::new()
            },
        }
    }

    /// Grow the allocation for an edit that needs `needed` bytes in total,
    /// exactly as [`grown_capacity`] describes.
    fn grow_for(&mut self, needed: usize)
        requires
            old(self).wf(),
            needed <= 128,
        ensures
            final(self).wf(),
            final(self)@ == old(self)@,
            final(self).spec_capacity() == grown_capacity(
                old(self).spec_capacity(),
                encode_utf8(old(self)@).len() as int,
                needed as int,
            ),
            needed <= final(self).spec_capacity(),
    {
        proof {
            self.lemma_view();
        }
        if needed <= self.allocated as usize {
            return ;
        }
        self.reserve(needed as u8);
        if needed > self.allocated as usize {
            let deficit = needed - self.allocated as usize;
            self.reserve_exact(deficit as u8);
        }
    }

    /// Append one codepoint; rejected, leaving the buffer untouched, when it
    /// would push the text past 128 bytes or past 32 codepoints.
    pub fn push(&mut self, glyph: char) -> (r: bool)
        requires
            old(self).wf(),
        ensures
            final(self).wf(),
            r == (encode_utf8(old(self)@).len() + encode_scalar(glyph as u32).len() <= 128
                && old(self)@.len() < 32),
            r ==> final(self)@ == old(self)@.push(glyph) && final(self).spec_capacity()
                == grown_capacity(
                old(self).spec_capacity(),
                encode_utf8(old(self)@).len() as int,
                encode_utf8(old(self)@.push(glyph)).len() as int,
            ),
            !r ==> final(self)@ == old(self)@ && final(self).spec_capacity() == old(
                self,
            ).spec_capacity(),
    {
        proof {
            self.lemma_view();
        }
        let enc = encode_char(glyph);
        let extra = enc.len();
        let cur = self.bytes.len();
        let new_len = cur + extra;
        proof {
            lemma_encode_concat(self@, seq![glyph]);
            lemma_encode_single(glyph);
            assert(old(self)@.push(glyph) =~= old(self)@ + seq![glyph]);
            assert(encode_utf8(old(self)@.push(glyph)).len() == new_len);
        }
        if new_len > 128 || self.glyph_count >= 32 {
            return false;
        }
        self.grow_for(new_len);
        let ghost mid = *self;
        proof {
            mid.lemma_view();
        }
        copy_range(&enc, 0, extra, &mut self.bytes);
        proof {
            assert(enc@.subrange(0, extra as int) =~= enc@);
            assert(self.bytes@ == encode_utf8(old(self)@) + encode_scalar(glyph as u32));
            assert(self.bytes@ == encode_utf8(old(self)@.push(glyph)));
            encode_utf8_valid_utf8(old(self)@.push(glyph));
            encode_utf8_decode_utf8(old(self)@.push(glyph));
        }
        self.glyph_count = self.glyph_count + 1;
        true
    }

    /// Remove and return the last codepoint; `None` on an empty buffer.
    pub fn pop(&mut self) -> (r: Option<char>)
        requires
            old(self).wf(),
        ensures
            final(self).wf(),
            final(self).spec_capacity() == old(self).spec_capacity(),
            r is Some <==> old(self)@.len() > 0,
            old(self)@.len() > 0 ==> r == Some(old(self)@.last()) && final(self)@ == old(
                self,
            )@.drop_last(),
            old(self)@.len() == 0 ==> final(self)@ == old(self)@,
    {
        proof {
            self.lemma_view();
            lemma_encode_len(self@);
        }
        if self.bytes.len() == 0 {
            return None;
        }
        let g = self.glyph_count as usize;
        let ghost v = self@;
        let off = glyph_byte_offset(&self.bytes, g - 1, Ghost(v));
        proof {
            lemma_encode_split(v, g - 1);
            assert(v.skip(g - 1) =~= seq![v.last()]);
            lemma_encode_single(v.last());
        }
        let mut sub: Vec<u8> = Vec::new();
        copy_range(&self.bytes, off, self.bytes.len(), &mut sub);
        proof {
            assert(sub@ =~= self.bytes@.subrange(off as int, self.bytes@.len() as int));
            assert(sub@ =~= encode_scalar(v.last() as u32));
        }
        let c = decode_single(sub, Ghost(v.last()));
        self.bytes.truncate(off);
        proof {
            assert(self.bytes@ =~= encode_utf8(v.take(g - 1)));
            encode_utf8_valid_utf8(v.take(g - 1));
            encode_utf8_decode_utf8(v.take(g - 1));
            assert(v.take(g - 1) =~= v.drop_last());
        }
        self.glyph_count = self.glyph_count - 1;
        Some(c)
    }

    /// Where the `k`-th codepoint's byte range starts and how long it is.
    ///
    /// This is the safe boundary scan behind all codepoint-indexed edits.
    fn glyph_range(&self, k: usize) -> (r: (usize, usize))
        requires
            self.wf(),
            k < self@.len(),
        ensures
            r.0 == encode_utf8(self@.take(k as int)).len(),
            r.1 == encode_scalar(self@[k as int] as u32).len(),
            r.0 + r.1 <= self.bytes@.len(),
            self.bytes@.subrange(r.0 as int, r.0 + r.1) == encode_scalar(self@[k as int] as u32),
    {
        proof {
            self.lemma_view();
        }
        let ghost v = self@;
        let off = glyph_byte_offset(&self.bytes, k, Ghost(v));
        proof {
            lemma_encode_split(v, k as int);
            encode_utf8_first_scalar(v.skip(k as int));
            lemma_encode_len(v.skip(k as int));
            assert(self.bytes@[off as int] == encode_utf8(v.skip(k as int))[0]);
        }
        let w = scalar_width(self.bytes[off], Ghost(encode_utf8(v.skip(k as int))));
        proof {
            assert(v.skip(k as int)[0] == v[k as int]);
            assert(w == encode_scalar(v[k as int] as u32).len());
            lemma_encode_split(v, k + 1);
            assert(v.take(k + 1) =~= v.take(k as int) + seq![v[k as int]]);
            lemma_encode_concat(v.take(k as int), seq![v[k as int]]);
            lemma_encode_single(v[k as int]);
            assert(encode_utf8(v.take(k + 1)).len() == off + w);
            assert(off + w <= self.bytes@.len());
            assert(self.bytes@.subrange(off as int, off + w) =~= encode_scalar(
                v[k as int] as u32,
            ));
        }
        (off, w)
    }

    /// Open a gap at codepoint index `index` and write one codepoint into
    /// it; rejected, leaving the buffer untouched, on an out-of-range index
    /// or when the text would outgrow its bounds.
    pub fn insert(&mut self, index: u8, glyph: char) -> (r: bool)
        requires
            old(self).wf(),
        ensures
            final(self).wf(),
            r == (encode_utf8(old(self)@).len() + encode_scalar(glyph as u32).len() <= 128
                && old(self)@.len() < 32 && (index as int) < old(self)@.len()),
            r ==> final(self)@ == old(self)@.insert(index as int, glyph)
                && final(self).spec_capacity() == grown_capacity(
                old(self).spec_capacity(),
                encode_utf8(old(self)@).len() as int,
                encode_utf8(old(self)@).len() + encode_scalar(glyph as u32).len() as int,
            ),
            !r ==> final(self)@ == old(self)@ && final(self).spec_capacity() == old(
                self,
            ).spec_capacity(),
    {
        proof {
            self.lemma_view();
        }
        let enc = encode_char(glyph);
        let extra = enc.len();
        let cur = self.bytes.len();
        let new_len = cur + extra;
        if new_len > 128 || self.glyph_count >= 32 || index as usize >= self.glyph_count as usize {
            return false;
        }
        let ghost v = self@;
        self.grow_for(new_len);
        let ghost mid = *self;
        proof {
            mid.lemma_view();
        }
        let (off, _w) = self.glyph_range(index as usize);
        let mut next: Vec<u8> = Vec::new();
        copy_range(&self.bytes, 0, off, &mut next);
        copy_range(&enc, 0, extra, &mut next);
        copy_range(&self.bytes, off, cur, &mut next);
        proof {
            let k = index as int;
            lemma_encode_split(v, k);
            assert(self.bytes@.subrange(0, off as int) =~= encode_utf8(v.take(k)));
            assert(self.bytes@.subrange(off as int, cur as int) =~= encode_utf8(v.skip(k)));
            assert(enc@.subrange(0, extra as int) =~= enc@);
            assert(v.insert(k, glyph) =~= v.take(k) + (seq![glyph] + v.skip(k)));
            lemma_encode_concat(v.take(k), seq![glyph] + v.skip(k));
            lemma_encode_concat(seq![glyph], v.skip(k));
            lemma_encode_single(glyph);
            assert(next@ =~= encode_utf8(v.insert(k, glyph)));
            encode_utf8_valid_utf8(v.insert(k, glyph));
            encode_utf8_decode_utf8(v.insert(k, glyph));
            lemma_encode_len(v.insert(k, glyph));
            assert(encode_utf8(v.insert(k, glyph)).len() == new_len);
        }
        self.bytes = next;
        self.glyph_count = self.glyph_count + 1;
        true
    }

    /// Close over and return the codepoint at index `index`; `None`, leaving
    /// the buffer untouched, on an out-of-range index.
    pub fn remove(&mut self, index: u8) -> (r: Option<char>)
        requires
            old(self).wf(),
        ensures
            final(self).wf(),
            final(self).spec_capacity() == old(self).spec_capacity(),
            r is Some <==> (index as int) < old(self)@.len(),
            (index as int) < old(self)@.len() ==> r == Some(old(self)@[index as int])
                && final(self)@ == old(self)@.remove(index as int),
            (index as int) >= old(self)@.len() ==> final(self)@ == old(self)@,
    {
        proof {
            self.lemma_view();
        }
        if index as usize >= self.glyph_count as usize {
            return None;
        }
        let ghost v = self@;
        let cur = self.bytes.len();
        let (off, w) = self.glyph_range(index as usize);
        let mut sub: Vec<u8> = Vec::new();
        copy_range(&self.bytes, off, off + w, &mut sub);
        proof {
            assert(sub@ =~= encode_scalar(v[index as int] as u32));
        }
        let c = decode_single(sub, Ghost(v[index as int]));
        let mut next: Vec<u8> = Vec::new();
        copy_range(&self.bytes, 0, off, &mut next);
        copy_range(&self.bytes, off + w, cur, &mut next);
        proof {
            let k = index as int;
            lemma_encode_split(v, k);
            lemma_encode_split(v, k + 1);
            assert(v.take(k + 1) =~= v.take(k) + seq![v[k]]);
            lemma_encode_concat(v.take(k), seq![v[k]]);
            lemma_encode_single(v[k]);
            assert(self.bytes@.subrange(0, off as int) =~= encode_utf8(v.take(k)));
            assert(self.bytes@.subrange(off + w, cur as int) =~= encode_utf8(v.skip(k + 1)));
            assert(v.remove(k) =~= v.take(k) + v.skip(k + 1));
            lemma_encode_concat(v.take(k), v.skip(k + 1));
            assert(next@ =~= encode_utf8(v.remove(k)));
            encode_utf8_valid_utf8(v.remove(k));
            encode_utf8_decode_utf8(v.remove(k));
        }
        self.bytes = next;
        self.glyph_count = self.glyph_count - 1;
        Some(c)
    }

    /// Overwrite the codepoint at index `index` and return the one that
    /// stood there; `None`, leaving the buffer untouched, on an out-of-range
    /// index or when the new codepoint would push the text past 128 bytes.
    pub fn replace(&mut self, index: u8, glyph: char) -> (r: Option<char>)
        requires
            old(self).wf(),
        ensures
            final(self).wf(),
            r is Some <==> (index as int) < old(self)@.len() && encode_utf8(
                old(self)@.update(index as int, glyph),
            ).len() <= 128,
            r is Some ==> r == Some(old(self)@[index as int]) && final(self)@ == old(self)@.update(
                index as int,
                glyph,
            ) && final(self).spec_capacity() == grown_capacity(
                old(self).spec_capacity(),
                encode_utf8(old(self)@.update(index as int, glyph)).len() as int,
                encode_utf8(old(self)@.update(index as int, glyph)).len() as int,
            ),
            r is None ==> final(self)@ == old(self)@ && final(self).spec_capacity() == old(
                self,
            ).spec_capacity(),
    {
        proof {
            self.lemma_view();
        }
        if index as usize >= self.glyph_count as usize {
            return None;
        }
        let ghost v = self@;
        let ghost k = index as int;
        let cur = self.bytes.len();
        let (off, w) = self.glyph_range(index as usize);
        let enc = encode_char(glyph);
        let extra = enc.len();
        proof {
            lemma_encode_split(v, k);
            lemma_encode_split(v, k + 1);
            assert(v.take(k + 1) =~= v.take(k) + seq![v[k]]);
            lemma_encode_concat(v.take(k), seq![v[k]]);
            lemma_encode_single(v[k]);
            assert(v.update(k, glyph) =~= v.take(k) + (seq![glyph] + v.skip(k + 1)));
            lemma_encode_concat(v.take(k), seq![glyph] + v.skip(k + 1));
            lemma_encode_concat(seq![glyph], v.skip(k + 1));
            lemma_encode_single(glyph);
            assert(encode_utf8(v.update(k, glyph)).len() == cur - w + extra);
        }
        let new_len = cur - w + extra;
        if new_len > 128 {
            return None;
        }
        let mut sub: Vec<u8> = Vec::new();
        copy_range(&self.bytes, off, off + w, &mut sub);
        proof {
            assert(sub@ =~= encode_scalar(v[k] as u32));
        }
        let c = decode_single(sub, Ghost(v[k]));
        let mut next: Vec<u8> = Vec::new();
        copy_range(&self.bytes, 0, off, &mut next);
        copy_range(&enc, 0, extra, &mut next);
        copy_range(&self.bytes, off + w, cur, &mut next);
        proof {
            assert(self.bytes@.subrange(0, off as int) =~= encode_utf8(v.take(k)));
            assert(self.bytes@.subrange(off + w, cur as int) =~= encode_utf8(v.skip(k + 1)));
            assert(enc@.subrange(0, extra as int) =~= enc@);
            assert(next@ =~= encode_utf8(v.update(k, glyph)));
            encode_utf8_valid_utf8(v.update(k, glyph));
            encode_utf8_decode_utf8(v.update(k, glyph));
        }
        if new_len > self.allocated as usize {
            let wanted = (self.allocated as usize + new_len) * 2;
            self.allocated = if wanted >= 128 {
                128
            } else {
                wanted as u8
            };
        }
        self.bytes = next;
        Some(c)
    }

    /// Build a nickname from text; rejected when the text holds more than 32
    /// codepoints. The allocation is cut to the exact byte length.
    pub fn from_str(s: &str) -> (r: Result<Nickname, NicknameError>)
        ensures
            r is Ok <==> s@.len() <= 32,
            r matches Ok(n) ==> n.wf() && n@ == s@ && n.spec_capacity() == encode_utf8(s@).len(),
            r matches Err(e) ==> (e matches NicknameError::TooManyGlyphs(t, count) && t@ == s@
                && count == s@.len()),
    {
        let glyphs = s.unicode_len();
        if glyphs > 32 {
            return Err(NicknameError::TooManyGlyphs(s.to_owned(), glyphs));
        }
        let bytes = s.as_bytes_vec();
        proof {
            lemma_encode_len(s@);
            encode_utf8_valid_utf8(s@);
            encode_utf8_decode_utf8(s@);
        }
        let cap = bytes.len() as u8;
        Ok(Nickname { bytes, allocated: cap, glyph_count: glyphs as u8 })
    }
}

/// Codepoint-indexed edits respect codepoint byte ranges: an edit at index
/// `k` rewrites exactly the `k`-th codepoint's full byte range inside the
/// buffer's encoding — removal closes it, replacement overwrites it,
/// insertion opens a gap at its start — and never splits any codepoint's
/// bytes.
pub proof fn lemma_edits_respect_codepoint_ranges(v: Seq<char>, k: int, c: char)
    requires
        0 <= k < v.len(),
    ensures
        ({
            let bytes = encode_utf8(v);
            let start = encode_utf8(v.take(k)).len() as int;
            let end = start + encode_scalar(v[k] as u32).len();
            &&& end <= bytes.len()
            &&& bytes.subrange(start, end) == encode_scalar(v[k] as u32)
            &&& encode_utf8(v.remove(k)) == bytes.subrange(0, start) + bytes.subrange(
                end,
                bytes.len() as int,
            )
            &&& encode_utf8(v.update(k, c)) == bytes.subrange(0, start) + encode_scalar(c as u32)
                + bytes.subrange(end, bytes.len() as int)
            &&& encode_utf8(v.insert(k, c)) == bytes.subrange(0, start) + encode_scalar(c as u32)
                + bytes.subrange(start, bytes.len() as int)
        }),
{
    let bytes = encode_utf8(v);
    let start = encode_utf8(v.take(k)).len() as int;
    let end = start + encode_scalar(v[k] as u32).len();
    lemma_encode_split(v, k);
    lemma_encode_split(v, k + 1);
    assert(v.take(k + 1) =~= v.take(k) + seq![v[k]]);
    lemma_encode_concat(v.take(k), seq![v[k]]);
    lemma_encode_single(v[k]);
    assert(bytes.subrange(0, start) =~= encode_utf8(v.take(k)));
    assert(bytes.subrange(start, end) =~= encode_scalar(v[k] as u32));
    assert(bytes.subrange(end, bytes.len() as int) =~= encode_utf8(v.skip(k + 1)));
    assert(bytes.subrange(start, bytes.len() as int) =~= encode_utf8(v.skip(k)));
    assert(v.remove(k) =~= v.take(k) + v.skip(k + 1));
    lemma_encode_concat(v.take(k), v.skip(k + 1));
    assert(encode_utf8(v.remove(k)) =~= bytes.subrange(0, start) + bytes.subrange(
        end,
        bytes.len() as int,
    ));
    assert(v.update(k, c) =~= v.take(k) + (seq![c] + v.skip(k + 1)));
    lemma_encode_concat(v.take(k), seq![c] + v.skip(k + 1));
    lemma_encode_concat(seq![c], v.skip(k + 1));
    lemma_encode_single(c);
    assert(encode_utf8(v.update(k, c)) =~= bytes.subrange(0, start) + encode_scalar(c as u32)
        + bytes.subrange(end, bytes.len() as int));
    assert(v.insert(k, c) =~= v.take(k) + (seq![c] + v.skip(k)));
    lemma_encode_concat(v.take(k), seq![c] + v.skip(k));
    lemma_encode_concat(seq![c], v.skip(k));
    assert(encode_utf8(v.insert(k, c)) =~= bytes.subrange(0, start) + encode_scalar(c as u32)
        + bytes.subrange(start, bytes.len() as int));
}

impl HeaderComponent for Nickname {
    open spec fn spec_mask() -> u8 {
        0x1F
    }

    open spec fn spec_shift() -> u8 {
        0
    }

    open spec fn component_wf(&self) -> bool {
        self.wf() && self@.len() >= 1
    }

    open spec fn spec_component(&self) -> u8 {
        (self@.len() - 1) as u8
    }

    fn mask() -> u8 {
        0x1F
    }

    fn shift() -> u8 {
        0
    }

    /// The nickname's header field: its codepoint count, less one.
    fn as_header_component(&self) -> (r: u8) {
        proof {
            self.lemma_view();
        }
        self.glyph_count - 1
    }
}

impl FromHeader for Nickname {
    type Error = NicknameError;

    /// Decoding takes the header's announced codepoint count (its low five
    /// bits, plus one): the bytes must be valid UTF-8 holding exactly that
    /// many codepoints.
    open spec fn from_header_rel(
        header: Header,
        bytes: Seq<u8>,
        r: Result<Self, NicknameError>,
    ) -> bool {
        let announced = ((header.spec_byte() & 0x1F) >> 0) + 1;
        if !valid_utf8(bytes) {
            r == Err::<Nickname, NicknameError>(NicknameError::UTF8)
        } else if decode_utf8(bytes).len() != announced {
            r matches Err(e) && (e matches NicknameError::TooManyGlyphs(t, count) && t@
                == decode_utf8(bytes) && count == decode_utf8(bytes).len())
        } else {
            r matches Ok(n) && n@ == decode_utf8(bytes) && n.wf() && n.spec_capacity()
                == bytes.len()
        }
    }

    fn from_header(header: &Header, bytes: &[u8]) -> (r: Result<Self, NicknameError>) {
        let announced = header.get_bits::<Nickname>(None) as usize + 1;
        proof {
            let b = header.spec_byte();
            assert((b & 0x1F) >> 0 == b & 0x1F && b & 0x1F <= 31) by (bit_vector);
        }
        let mut copy: Vec<u8> = Vec::new();
        let mut i: usize = 0;
        let n = bytes.len();
        proof {
            assert(copy@ =~= bytes@.take(0));
        }
        while i < n
            invariant
                i <= n == bytes@.len(),
                copy@ == bytes@.take(i as int),
            decreases n - i,
        {
            copy.push(bytes[i]);
            proof {
                assert(copy@ =~= bytes@.take(i + 1));
            }
            i += 1;
        }
        proof {
            assert(copy@ =~= bytes@);
        }
        let text = match string_from_utf8(copy) {
            Some(s) => s,
            None => {
                return Err(NicknameError::UTF8);
            },
        };
        proof {
            encode_utf8_decode_utf8(text@);
        }
        let count = text.as_str().unicode_len();
        if count != announced {
            return Err(NicknameError::TooManyGlyphs(text, count));
        }
        proof {
            lemma_encode_len(text@);
        }
        let cap = n as u8;
        let glyphs = count as u8;
        let mut taken: Vec<u8> = Vec::new();
        let raw = text.as_str().as_bytes();
        let mut j: usize = 0;
        let m = raw.len();
        proof {
            assert(taken@ =~= raw@.take(0));
        }
        while j < m
            invariant
                j <= m == raw@.len(),
                taken@ == raw@.take(j as int),
            decreases m - j,
        {
            taken.push(raw[j]);
            proof {
                assert(taken@ =~= raw@.take(j + 1));
            }
            j += 1;
        }
        proof {
            assert(taken@ =~= raw@);
        }
        Ok(Nickname { bytes: taken, allocated: cap, glyph_count: glyphs })
    }
}

impl Default for Nickname {
    /// An empty nickname with the default starting allocation.
    fn default() -> (r: Self)
        ensures
            r.wf(),
            r@ =~= Seq::<char>::empty(),
            r.spec_capacity() == 32,
    {
        let n = Nickname { bytes: Vec::new(), allocated: 32, glyph_count: 0 };
        proof {
            assert(n.bytes@ =~= Seq::<u8>::empty());
        }
        n
    }
}

} // verus!

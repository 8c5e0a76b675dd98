//! UTF-8 helpers shared by the nickname buffer and the message codec.
//!
//! Everything is stated against vstd's UTF-8 theory: a text value is a
//! `Seq<char>`, its wire form is `encode_utf8` of it, and decoding is
//! `decode_utf8`.

use vstd::prelude::*;
use vstd::utf8::char_is_scalar;
use vstd::utf8::char_u32_cast;
use vstd::utf8::decode_utf8;
use vstd::utf8::encode_scalar;
use vstd::utf8::encode_utf8;
use vstd::utf8::encode_utf8_decode_utf8;
use vstd::utf8::encode_utf8_first_scalar;
use vstd::utf8::encode_utf8_valid_utf8;
use vstd::utf8::is_leading_byte_width_1;
use vstd::utf8::is_leading_byte_width_2;
use vstd::utf8::is_leading_byte_width_3;
use vstd::utf8::is_leading_byte_width_4;
use vstd::utf8::length_of_first_scalar;
use vstd::utf8::valid_first_scalar;
use vstd::utf8::valid_utf8;

verus! {

/// Relies on std's `String::from_utf8`: it returns `Ok` exactly when the
/// bytes are valid UTF-8, and the returned string then holds exactly the
/// input bytes.
#[verifier::external_body]
pub(crate) fn string_from_utf8(bytes: Vec<u8>) -> (r: Option<String>)
    ensures
        r is Some <==> valid_utf8(bytes@),
        r matches Some(s) ==> encode_utf8(s@) == bytes@,
{
    String::from_utf8(bytes).ok()
}

/// The UTF-8 encoding of one character, as executable code.
pub(crate) fn encode_char(c: char) -> (out: Vec<u8>)
    ensures
        out@ == encode_scalar(c as u32),
        1 <= out@.len() <= 4,
{
    proof {
        char_is_scalar(c);
    }
    let u = c as u32;
    let mut out: Vec<u8> = Vec::new();
    if u <= 0x7F {
        out.push((u & 0x7F) as u8);
        proof {
            assert(out@ =~= encode_scalar(u));
        }
    } else if u <= 0x7FF {
        out.push(0xC0u8 | (((u >> 6) & 0x1F) as u8));
        out.push(0x80u8 | ((u & 0x3F) as u8));
        proof {
            assert(out@ =~= encode_scalar(u));
        }
    } else if u <= 0xFFFF {
        out.push(0xE0u8 | (((u >> 12) & 0x0F) as u8));
        out.push(0x80u8 | (((u >> 6) & 0x3F) as u8));
        out.push(0x80u8 | ((u & 0x3F) as u8));
        proof {
            assert(out@ =~= encode_scalar(u));
        }
    } else {
        out.push(0xF0u8 | (((u >> 18) & 0x7) as u8));
        out.push(0x80u8 | (((u >> 12) & 0x3F) as u8));
        out.push(0x80u8 | (((u >> 6) & 0x3F) as u8));
        out.push(0x80u8 | ((u & 0x3F) as u8));
        proof {
            assert(out@ =~= encode_scalar(u));
        }
    }
    out
}

/// How many bytes the scalar encoding starting with `lead` occupies.
pub(crate) fn scalar_width(lead: u8, Ghost(s): Ghost<Seq<u8>>) -> (w: usize)
    requires
        valid_first_scalar(s),
        s.len() > 0,
        s[0] == lead,
    ensures
        w == length_of_first_scalar(s),
        1 <= w <= 4,
{
    if lead < 0x80 {
        1
    } else if lead < 0xE0 {
        proof {
            assert(is_leading_byte_width_2(lead));
        }
        2
    } else if lead < 0xF0 {
        proof {
            assert(is_leading_byte_width_3(lead));
        }
        3
    } else {
        proof {
            assert(is_leading_byte_width_4(lead));
        }
        4
    }
}

/// Append `src[from..to]` onto `dst`.
pub(crate) fn copy_range(src: &Vec<u8>, from: usize, to: usize, dst: &mut Vec<u8>)
    requires
        from <= to <= src@.len(),
    ensures
        final(dst)@ == old(dst)@ + src@.subrange(from as int, to as int),
{
    let mut i: usize = from;
    proof {
        assert(dst@ =~= dst@ + src@.subrange(from as int, from as int));
    }
    while i < to
        invariant
            from <= i <= to <= src@.len(),
            dst@ == old(dst)@ + src@.subrange(from as int, i as int),
        decreases to - i,
    {
        dst.push(src[i]);
        proof {
            assert(dst@ =~= old(dst)@ + src@.subrange(from as int, i + 1));
        }
        i += 1;
    }
}

/// Append a whole slice onto `dst`.
pub(crate) fn append_slice(dst: &mut Vec<u8>, src: &[u8])
    ensures
        final(dst)@ == old(dst)@ + src@,
{
    let n = src.len();
    let mut i: usize = 0;
    proof {
        assert(dst@ =~= dst@ + src@.subrange(0, 0));
    }
    while i < n
        invariant
            i <= n == src@.len(),
            dst@ == old(dst)@ + src@.subrange(0, i as int),
        decreases n - i,
    {
        dst.push(src[i]);
        proof {
            assert(dst@ =~= old(dst)@ + src@.subrange(0, i + 1));
        }
        i += 1;
    }
    proof {
        assert(dst@ =~= old(dst)@ + src@);
    }
}

/// Recover the character whose encoding the given bytes hold.
pub(crate) fn decode_single(sub: Vec<u8>, Ghost(c0): Ghost<char>) -> (c: char)
    requires
        sub@ == encode_scalar(c0 as u32),
    ensures
        c == c0,
{
    proof {
        lemma_encode_single(c0);
        encode_utf8_valid_utf8(seq![c0]);
        encode_utf8_decode_utf8(seq![c0]);
    }
    let s_opt = string_from_utf8(sub);
    match s_opt {
        Some(s) => {
            proof {
                assert(encode_utf8(s@) == encode_utf8(seq![c0]));
                encode_utf8_decode_utf8(s@);
                assert(decode_utf8(encode_utf8(s@)) == s@);
                assert(s@ =~= seq![c0]);
            }
            s.as_str().get_char(0)
        },
        None => {
            proof {
                assert(false);
            }
            '\0'
        },
    }
}

/// The encoding of a one-character sequence is the character's scalar
/// encoding.
pub(crate) proof fn lemma_encode_single(c: char)
    ensures
        encode_utf8(seq![c]) == encode_scalar(c as u32),
{
    let s = seq![c];
    assert(s.drop_first() =~= Seq::<char>::empty());
    assert(encode_utf8(s.drop_first()) =~= Seq::<u8>::empty());
    assert(encode_utf8(s) =~= encode_scalar(c as u32));
}

/// Encoding distributes over concatenation of character sequences.
pub(crate) proof fn lemma_encode_concat(a: Seq<char>, b: Seq<char>)
    ensures
        encode_utf8(a + b) == encode_utf8(a) + encode_utf8(b),
    decreases a.len(),
{
    if a.len() == 0 {
        assert(a + b =~= b);
        assert(encode_utf8(a) =~= Seq::<u8>::empty());
        assert(encode_utf8(a) + encode_utf8(b) =~= encode_utf8(b));
    } else {
        lemma_encode_concat(a.drop_first(), b);
        assert((a + b).len() != 0);
        assert((a + b)[0] == a[0]);
        assert((a + b).drop_first() =~= a.drop_first() + b);
        assert(encode_utf8(a + b) =~= encode_utf8(a) + encode_utf8(b));
    }
}

/// A character sequence splits at any index into a take and a skip part, and
/// its encoding splits with it.
pub(crate) proof fn lemma_encode_split(s: Seq<char>, k: int)
    requires
        0 <= k <= s.len(),
    ensures
        encode_utf8(s) == encode_utf8(s.take(k)) + encode_utf8(s.skip(k)),
{
    assert(s.take(k) + s.skip(k) =~= s);
    lemma_encode_concat(s.take(k), s.skip(k));
}

/// Every character costs between 1 and 4 encoded bytes.
pub(crate) proof fn lemma_encode_len(s: Seq<char>)
    ensures
        s.len() <= encode_utf8(s).len() <= 4 * s.len(),
    decreases s.len(),
{
    if s.len() == 0 {
    } else {
        char_is_scalar(s[0]);
        lemma_encode_len(s.drop_first());
    }
}

/// A scalar encoding contains a zero byte exactly for the NUL character.
pub(crate) proof fn lemma_encode_scalar_nul(c: char)
    ensures
        encode_scalar(c as u32).contains(0u8) <==> c == '\0',
{
    char_is_scalar(c);
    let u = c as u32;
    let enc = encode_scalar(u);
    if u <= 0x7F {
        assert(enc =~= seq![(u & 0x7F) as u8]);
        let e0 = (u & 0x7F) as u8;
        if c == '\0' {
            assert(u == 0) by {
                char_u32_cast(c, u);
            }
            assert(e0 == 0u8) by (bit_vector)
                requires
                    u == 0,
                    e0 == (u & 0x7F) as u8,
            ;
            assert(enc[0] == 0u8);
            assert(enc.contains(0u8));
        }
        if enc.contains(0u8) {
            assert(enc[0] == 0u8);
            assert(e0 == 0u8);
            assert(u == 0) by (bit_vector)
                requires
                    u <= 0x7F,
                    e0 == (u & 0x7F) as u8,
                    e0 == 0u8,
            ;
            char_u32_cast(c, 0u32);
            assert(c == '\0');
        }
    } else {
        assert(c != '\0');
        assert forall|i: int| 0 <= i < enc.len() implies enc[i] != 0u8 by {
            let hi = (u >> 6) & 0x3F;
            let hi2 = (u >> 12) & 0x3F;
            let hi3 = (u >> 18) & 0x7;
            let lo12 = (u >> 12) & 0x0F;
            let lo6 = (u >> 6) & 0x1F;
            assert(0xC0u8 | ((lo6) as u8) != 0u8) by (bit_vector);
            assert(0xE0u8 | ((lo12) as u8) != 0u8) by (bit_vector);
            assert(0xF0u8 | ((hi3) as u8) != 0u8) by (bit_vector);
            assert(0x80u8 | ((u & 0x3F) as u8) != 0u8) by (bit_vector);
            assert(0x80u8 | ((hi) as u8) != 0u8) by (bit_vector);
            assert(0x80u8 | ((hi2) as u8) != 0u8) by (bit_vector);
        }
    }
}

/// A UTF-8 encoding holds a zero byte exactly where the text holds a NUL
/// character.
pub proof fn lemma_encode_nul(s: Seq<char>)
    ensures
        encode_utf8(s).contains(0u8) <==> s.contains('\0'),
    decreases s.len(),
{
    if s.len() == 0 {
    } else {
        lemma_encode_nul(s.drop_first());
        lemma_encode_scalar_nul(s[0]);
        let head = encode_scalar(s[0] as u32);
        let tail = encode_utf8(s.drop_first());
        assert(encode_utf8(s) == head + tail);
        if encode_utf8(s).contains(0u8) {
            let j = choose|j: int| 0 <= j < encode_utf8(s).len() && encode_utf8(s)[j] == 0u8;
            if j < head.len() {
                assert(head.contains(0u8));
                assert(s[0] == '\0');
                assert(s.contains('\0'));
            } else {
                assert(tail[j - head.len()] == 0u8);
                assert(tail.contains(0u8));
                let i = choose|i: int| 0 <= i < s.drop_first().len() && s.drop_first()[i] == '\0';
                assert(s[i + 1] == '\0');
                assert(s.contains('\0'));
            }
        }
        if s.contains('\0') {
            let i = choose|i: int| 0 <= i < s.len() && s[i] == '\0';
            if i == 0 {
                assert(head.contains(0u8));
                let j = choose|j: int| 0 <= j < head.len() && head[j] == 0u8;
                assert(encode_utf8(s)[j] == 0u8);
                assert(encode_utf8(s).contains(0u8));
            } else {
                assert(s.drop_first()[i - 1] == '\0');
                assert(s.drop_first().contains('\0'));
                assert(tail.contains(0u8));
                let j = choose|j: int| 0 <= j < tail.len() && tail[j] == 0u8;
                assert(encode_utf8(s)[head.len() + j] == 0u8);
                assert(encode_utf8(s).contains(0u8));
            }
        }
    }
}

/// Whether a text holds the NUL character anywhere.
///
/// Message content must be free of NUL: the wire frame ends at a zero byte,
/// and [`lemma_encode_nul`] shows that scanning the encoding's bytes is
/// exactly the codepoint-level check.
pub fn has_embedded_nul(s: &str) -> (r: bool)
    ensures
        r == s@.contains('\0'),
{
    proof {
        lemma_encode_nul(s@);
    }
    let bytes = s.as_bytes();
    let n = bytes.len();
    let mut i: usize = 0;
    while i < n
        invariant
            i <= n == encode_utf8(s@).len(),
            bytes@ == encode_utf8(s@),
            forall|j: int| 0 <= j < i ==> bytes@[j] != 0,
        decreases n - i,
    {
        if bytes[i] == 0 {
            proof {
                assert(encode_utf8(s@)[i as int] == 0u8);
                assert(encode_utf8(s@).contains(0u8));
                lemma_encode_nul(s@);
                assert(s@.contains('\0'));
            }
            return true;
        }
        i += 1;
    }
    proof {
        assert(!encode_utf8(s@).contains(0u8)) by {
            if encode_utf8(s@).contains(0u8) {
                let j = choose|j: int|
                    0 <= j < encode_utf8(s@).len() && encode_utf8(s@)[j] == 0u8;
            }
        }
    }
    false
}

/// Resolve a codepoint index into the byte offset where that codepoint's
/// encoding starts.
pub(crate) fn glyph_byte_offset(bytes: &Vec<u8>, k: usize, Ghost(chars): Ghost<Seq<char>>) -> (off:
    usize)
    requires
        bytes@ == encode_utf8(chars),
        k <= chars.len(),
    ensures
        off == encode_utf8(chars.take(k as int)).len(),
        off <= bytes@.len(),
{
    let total = bytes.len();
    let mut off: usize = 0;
    let mut j: usize = 0;
    proof {
        assert(chars.take(0) =~= Seq::<char>::empty());
        assert(encode_utf8(chars.take(0)) =~= Seq::<u8>::empty());
    }
    while j < k
        invariant
            j <= k <= chars.len(),
            bytes@ == encode_utf8(chars),
            total == bytes@.len(),
            off == encode_utf8(chars.take(j as int)).len(),
            off <= total,
        decreases k - j,
    {
        proof {
            lemma_encode_split(chars, j as int);
            encode_utf8_first_scalar(chars.skip(j as int));
            lemma_encode_len(chars.skip(j as int));
            assert(encode_utf8(chars.skip(j as int)).len() > 0);
            assert(bytes@[off as int] == encode_utf8(chars.skip(j as int))[0]);
        }
        let w = scalar_width(bytes[off], Ghost(encode_utf8(chars.skip(j as int))));
        proof {
            char_is_scalar(chars[j as int]);
            assert(chars.skip(j as int)[0] == chars[j as int]);
            assert(w == encode_scalar(chars[j as int] as u32).len());
            assert(chars.take(j + 1) =~= chars.take(j as int) + seq![chars[j as int]]);
            lemma_encode_concat(chars.take(j as int), seq![chars[j as int]]);
            lemma_encode_single(chars[j as int]);
            assert(encode_utf8(chars.take(j + 1)).len() == off + w);
            lemma_encode_split(chars, j + 1);
            lemma_encode_len(chars.skip(j + 1));
            assert(off + w <= total);
        }
        off += w;
        j += 1;
    }
    off
}

} // verus!

//! Assembling and parsing whole wire frames.
//!
//! A frame is, in order: one header byte, eight big-endian timestamp bytes
//! (signed seconds since the epoch), 1-4 identifier bytes as the header's
//! shape field announces, the nickname's UTF-8 bytes holding as many
//! codepoints as the header's low field announces plus one, the content's
//! UTF-8 bytes, and a terminating zero byte.

use vstd::prelude::*;
use vstd::slice::slice_subrange;
use vstd::slice::slice_to_vec;
use vstd::utf8::decode_utf8;
use vstd::utf8::encode_utf8;
use vstd::utf8::encode_utf8_decode_utf8;
use vstd::utf8::valid_utf8;

use crate::errors::IdentifierError;
use crate::errors::MessageError;
use crate::errors::UserError;
use crate::header::FromHeader;
use crate::header::Header;
use crate::header::HeaderComponent;
use crate::identifier::ident_bytes;
use crate::identifier::shape_of;
use crate::identifier::u32_of_be;
use crate::identifier::zero_bytes;
use crate::identifier::Identifier;
use crate::nickname::Nickname;
use crate::text::append_slice;
use crate::text::string_from_utf8;

verus! {

/// One chat message: who wrote it, under which nickname, when it was put on
/// the wire, and what it says.
#[derive(Debug)]
pub struct Message {
    pub(crate) written_on: i64,
    pub(crate) identifier: Identifier,
    pub(crate) nickname: Nickname,
    pub(crate) content: String,
}

/// Whether chrono can place `secs` on its calendar.
pub uninterp spec fn timestamp_in_range(secs: i64) -> bool;

/// Relies on chrono's `DateTime::<Utc>::from_timestamp`: it returns `Some`
/// exactly for the seconds values inside chrono's supported calendar range.
#[verifier::external_body]
pub(crate) fn timestamp_valid(secs: i64) -> (r: bool)
    ensures
        r == timestamp_in_range(secs),
{
    chrono::DateTime::<chrono::Utc>::from_timestamp(secs, 0).is_some()
}

/// The unsigned 64-bit two's-complement representation of a signed second
/// count.
pub open spec fn rep_of_ts(t: i64) -> u64 {
    if t >= 0 {
        t as u64
    } else {
        ((t as int) + 0x1_0000_0000_0000_0000) as u64
    }
}

/// The signed second count a 64-bit two's-complement representation stands
/// for.
pub open spec fn ts_of_rep(u: u64) -> i64 {
    if u < 0x8000_0000_0000_0000 {
        u as i64
    } else {
        ((u as int) - 0x1_0000_0000_0000_0000) as i64
    }
}

/// The eight bytes of `u`, most significant first.
pub open spec fn be8(u: u64) -> Seq<u8> {
    seq![
        (u >> 56) as u8,
        ((u >> 48) & 0xFF) as u8,
        ((u >> 40) & 0xFF) as u8,
        ((u >> 32) & 0xFF) as u8,
        ((u >> 24) & 0xFF) as u8,
        ((u >> 16) & 0xFF) as u8,
        ((u >> 8) & 0xFF) as u8,
        (u & 0xFF) as u8,
    ]
}

/// The big-endian 64-bit value of an 8-byte sequence.
pub open spec fn u64_of_be(s: Seq<u8>) -> u64
    recommends
        s.len() == 8,
{
    ((s[0] as u64) << 56) | ((s[1] as u64) << 48) | ((s[2] as u64) << 40) | ((s[3] as u64) << 32)
        | ((s[4] as u64) << 24) | ((s[5] as u64) << 16) | ((s[6] as u64) << 8) | (s[7] as u64)
}

/// The index of the last zero byte of a sequence, or -1 when it has none.
pub open spec fn last_null_of(b: Seq<u8>) -> int
    decreases b.len(),
{
    if b.len() == 0 {
        -1
    } else if b.last() == 0 {
        b.len() - 1
    } else {
        last_null_of(b.drop_last())
    }
}

/// The header byte a message frames with: the identifier's shape in the high
/// three bits, the nickname's codepoint count less one in the low five.
pub open spec fn frame_header_byte(id: u32, nick: Seq<char>) -> u8 {
    (shape_of(id) << 5) | ((nick.len() - 1) as u8)
}

/// The whole wire frame of a message sent at second `ts`.
pub open spec fn frame_bytes(id: u32, ts: i64, nick: Seq<char>, content: Seq<char>) -> Seq<u8> {
    seq![frame_header_byte(id, nick)] + be8(rep_of_ts(ts)) + ident_bytes(id) + encode_utf8(nick)
        + encode_utf8(content) + seq![0u8]
}

/// What parsing a byte sequence returns. The checks run in frame order:
/// overall size, the terminator's place, the timestamp, the identifier, the
/// text's encoding, and the announced nickname codepoint count.
pub open(crate) spec fn parse_rel(b: Seq<u8>, r: Result<Message, MessageError>) -> bool {
    let stop = last_null_of(b);
    let ts = ts_of_rep(u64_of_be(b.subrange(1, 9)));
    let data = (b[0] & 0xE0) >> 5;
    let take = (data & 0x03) as int;
    let idlen = 4 - take;
    let avail = stop - 9;
    let id_slice = b.subrange(
        9,
        9 + (if idlen <= avail {
            idlen
        } else {
            avail
        }),
    );
    if b.len() < 12 {
        r == Err::<Message, MessageError>(MessageError::TooShort(b.len() as usize))
    } else if stop < 9 {
        r matches Err(e) && (e matches MessageError::NoNull(raw) && raw@ == b)
    } else if !timestamp_in_range(ts) {
        r == Err::<Message, MessageError>(MessageError::InvalidTimestamp)
    } else if id_slice.len() != idlen {
        r == Err::<Message, MessageError>(
            MessageError::User(
                UserError::Identifier(
                    IdentifierError::LengthMismatch(id_slice.len() as usize, idlen as usize),
                ),
            ),
        )
    } else {
        let be = if data & 0x04 == 0 {
            zero_bytes(take) + id_slice
        } else {
            id_slice + zero_bytes(take)
        };
        let v = u32_of_be(be);
        if v == 0 {
            r == Err::<Message, MessageError>(
                MessageError::User(UserError::Identifier(IdentifierError::Zero)),
            )
        } else {
            let rest = b.subrange(9 + idlen, stop);
            if !valid_utf8(rest) {
                r == Err::<Message, MessageError>(MessageError::UTF8)
            } else {
                let chars = decode_utf8(rest);
                let announced = ((b[0] & 0x1F) as int) + 1;
                if chars.len() < announced {
                    r == Err::<Message, MessageError>(
                        MessageError::User(
                            UserError::LengthMismatch(chars.len() as usize, announced as usize),
                        ),
                    )
                } else {
                    r matches Ok(m) && m.wf() && m.spec_identifier() == v && m.spec_written_on()
                        == ts && m.spec_nickname() == chars.take(announced)
                        && m.spec_content() == chars.skip(announced)
                }
            }
        }
    }
}

/// Turn a signed second count into its wire representation.
fn ts_to_rep(t: i64) -> (u: u64)
    ensures
        u == rep_of_ts(t),
{
    if t >= 0 {
        t as u64
    } else {
        let wide: i128 = (t as i128) + 0x1_0000_0000_0000_0000i128;
        wide as u64
    }
}

/// Read a signed second count back out of its wire representation.
fn rep_to_ts(u: u64) -> (t: i64)
    ensures
        t == ts_of_rep(u),
{
    if u < 0x8000_0000_0000_0000 {
        u as i64
    } else {
        let wide: i128 = (u as i128) - 0x1_0000_0000_0000_0000i128;
        wide as i64
    }
}

/// The wire representation of a second count reads back as that count.
pub proof fn lemma_ts_round_trip(t: i64)
    ensures
        ts_of_rep(rep_of_ts(t)) == t,
{
}

/// An unsigned 64-bit value survives the trip through its eight big-endian
/// bytes.
pub proof fn lemma_u64_be_round_trip(u: u64)
    ensures
        u64_of_be(be8(u)) == u,
{
    let b0 = (u >> 56) as u8;
    let b1 = ((u >> 48) & 0xFF) as u8;
    let b2 = ((u >> 40) & 0xFF) as u8;
    let b3 = ((u >> 32) & 0xFF) as u8;
    let b4 = ((u >> 24) & 0xFF) as u8;
    let b5 = ((u >> 16) & 0xFF) as u8;
    let b6 = ((u >> 8) & 0xFF) as u8;
    let b7 = (u & 0xFF) as u8;
    assert((((b0 as u64) << 56) | ((b1 as u64) << 48) | ((b2 as u64) << 40) | ((b3 as u64) << 32)
        | ((b4 as u64) << 24) | ((b5 as u64) << 16) | ((b6 as u64) << 8) | (b7 as u64)) == u)
        by (bit_vector)
        requires
            b0 == (u >> 56) as u8,
            b1 == ((u >> 48) & 0xFF) as u8,
            b2 == ((u >> 40) & 0xFF) as u8,
            b3 == ((u >> 32) & 0xFF) as u8,
            b4 == ((u >> 24) & 0xFF) as u8,
            b5 == ((u >> 16) & 0xFF) as u8,
            b6 == ((u >> 8) & 0xFF) as u8,
            b7 == (u & 0xFF) as u8,
    ;
}

impl Message {
    /// The smallest possible frame: header, timestamp, a one-byte
    /// identifier, a one-byte nickname, and the terminator.
    pub const MIN_LENGTH: usize = 12;

    /// A message's internal consistency.
    pub open(crate) spec fn wf(&self) -> bool {
        self.nickname.wf()
    }

    /// The session identifier's raw value.
    pub open(crate) spec fn spec_identifier(&self) -> u32 {
        self.identifier@
    }

    /// The nickname's codepoints.
    pub open(crate) spec fn spec_nickname(&self) -> Seq<char> {
        self.nickname@
    }

    /// The content's codepoints.
    pub open(crate) spec fn spec_content(&self) -> Seq<char> {
        self.content@
    }

    /// The send instant, in seconds since the epoch.
    pub open(crate) spec fn spec_written_on(&self) -> i64 {
        self.written_on
    }

    /// A blank message: epoch timestamp, unset identifier, empty nickname
    /// and content.
    pub fn empty() -> (r: Self)
        ensures
            r.wf(),
            r.spec_written_on() == 0,
            r.spec_identifier() == 0,
            r.spec_nickname() =~= Seq::<char>::empty(),
            r.spec_content() =~= Seq::<char>::empty(),
    {
        Message {
            written_on: 0,
            identifier: Identifier::empty(),
            nickname: Nickname::default(),
            content: String::new(),
        }
    }

    /// A blank message carrying the given content.
    pub fn with_content(content: &str) -> (r: Self)
        ensures
            r.wf(),
            r.spec_written_on() == 0,
            r.spec_identifier() == 0,
            r.spec_nickname() =~= Seq::<char>::empty(),
            r.spec_content() == content@,
    {
        let mut m = Message::empty();
        m.content = content.to_owned();
        m
    }

    /// A blank message carrying the given identifier.
    pub fn with_identifier(identifier: Identifier) -> (r: Self)
        ensures
            r.wf(),
            r.spec_written_on() == 0,
            r.spec_identifier() == identifier@,
            r.spec_nickname() =~= Seq::<char>::empty(),
            r.spec_content() =~= Seq::<char>::empty(),
    {
        let mut m = Message::empty();
        m.identifier = identifier;
        m
    }

    /// A blank message carrying the given nickname.
    pub fn with_nickname(nickname: Nickname) -> (r: Self)
        requires
            nickname.wf(),
        ensures
            r.wf(),
            r.spec_written_on() == 0,
            r.spec_identifier() == 0,
            r.spec_nickname() == nickname@,
            r.spec_content() =~= Seq::<char>::empty(),
    {
        let mut m = Message::empty();
        m.nickname = nickname;
        m
    }

    /// The content's text.
    pub fn get_content(&self) -> (r: &str)
        ensures
            r@ == self.spec_content(),
    {
        self.content.as_str()
    }

    /// Overwrite the content.
    pub fn set_content(&mut self, content: &str)
        ensures
            final(self).spec_content() == content@,
            final(self).spec_identifier() == old(self).spec_identifier(),
            final(self).spec_nickname() == old(self).spec_nickname(),
            final(self).spec_written_on() == old(self).spec_written_on(),
            final(self).wf() == old(self).wf(),
    {
        self.content = content.to_owned();
    }

    /// Overwrite the content, by value.
    pub fn content(self, content: &str) -> (r: Self)
        ensures
            r.spec_content() == content@,
            r.spec_identifier() == self.spec_identifier(),
            r.spec_nickname() == self.spec_nickname(),
            r.spec_written_on() == self.spec_written_on(),
            r.wf() == self.wf(),
    {
        let mut m = self;
        m.set_content(content);
        m
    }

    /// The session identifier.
    pub fn get_identifier(&self) -> (r: Identifier)
        ensures
            r@ == self.spec_identifier(),
    {
        self.identifier
    }

    /// Overwrite the identifier.
    pub fn set_identifier(&mut self, identifier: Identifier)
        ensures
            final(self).spec_identifier() == identifier@,
            final(self).spec_content() == old(self).spec_content(),
            final(self).spec_nickname() == old(self).spec_nickname(),
            final(self).spec_written_on() == old(self).spec_written_on(),
            final(self).wf() == old(self).wf(),
    {
        self.identifier = identifier;
    }

    /// Overwrite the identifier, by value.
    pub fn identifier(self, identifier: Identifier) -> (r: Self)
        ensures
            r.spec_identifier() == identifier@,
            r.spec_content() == self.spec_content(),
            r.spec_nickname() == self.spec_nickname(),
            r.spec_written_on() == self.spec_written_on(),
            r.wf() == self.wf(),
    {
        let mut m = self;
        m.set_identifier(identifier);
        m
    }

    /// The nickname buffer.
    pub fn get_nickname(&self) -> (r: &Nickname)
        ensures
            r@ == self.spec_nickname(),
            r.wf() == self.wf(),
    {
        &self.nickname
    }

    /// Overwrite the nickname.
    pub fn set_nickname(&mut self, nickname: Nickname)
        requires
            nickname.wf(),
        ensures
            final(self).wf(),
            final(self).spec_nickname() == nickname@,
            final(self).spec_content() == old(self).spec_content(),
            final(self).spec_identifier() == old(self).spec_identifier(),
            final(self).spec_written_on() == old(self).spec_written_on(),
    {
        self.nickname = nickname;
    }

    /// Overwrite the nickname, by value.
    pub fn nickname(self, nickname: Nickname) -> (r: Self)
        requires
            nickname.wf(),
        ensures
            r.wf(),
            r.spec_nickname() == nickname@,
            r.spec_content() == self.spec_content(),
            r.spec_identifier() == self.spec_identifier(),
            r.spec_written_on() == self.spec_written_on(),
    {
        let mut m = self;
        m.set_nickname(nickname);
        m
    }

    /// The send instant, in seconds since the epoch.
    pub fn get_written_on(&self) -> (r: i64)
        ensures
            r == self.spec_written_on(),
    {
        self.written_on
    }

    /// Frame this message for the wire, stamped with the given send instant.
    ///
    /// Refused only when the identifier is still the unset sentinel, which
    /// never travels.
    pub fn to_bytes(&self, timestamp: i64) -> (r: Result<Vec<u8>, MessageError>)
        requires
            self.wf(),
            self.spec_nickname().len() >= 1,
        ensures
            r is Ok <==> self.spec_identifier() != 0,
            r matches Ok(b) ==> b@ == frame_bytes(
                self.spec_identifier(),
                timestamp,
                self.spec_nickname(),
                self.spec_content(),
            ),
            r is Err ==> r == Err::<Vec<u8>, MessageError>(MessageError::NoIdentifier),
    {
        if self.identifier.is_unset() {
            return Err(MessageError::NoIdentifier);
        }
        proof {
            self.nickname.lemma_bounds();
        }
        let mut out: Vec<u8> = Vec::new();
        out.push(self.as_header_component());
        let u = ts_to_rep(timestamp);
        out.push((u >> 56) as u8);
        out.push(((u >> 48) & 0xFF) as u8);
        out.push(((u >> 40) & 0xFF) as u8);
        out.push(((u >> 32) & 0xFF) as u8);
        out.push(((u >> 24) & 0xFF) as u8);
        out.push(((u >> 16) & 0xFF) as u8);
        out.push(((u >> 8) & 0xFF) as u8);
        out.push((u & 0xFF) as u8);
        proof {
            assert(out@ =~= seq![
                frame_header_byte(self.spec_identifier(), self.spec_nickname()),
            ] + be8(u));
        }
        let idb = self.identifier.as_bytes();
        append_slice(&mut out, idb.as_slice());
        append_slice(&mut out, self.nickname.as_bytes());
        append_slice(&mut out, self.content.as_str().as_bytes());
        out.push(0);
        proof {
            assert(out@ =~= frame_bytes(
                self.spec_identifier(),
                timestamp,
                self.spec_nickname(),
                self.spec_content(),
            ));
        }
        Ok(out)
    }
}

/// A zero byte with only nonzero bytes after it is the last zero byte.
proof fn lemma_last_null_at(b: Seq<u8>, i: int)
    requires
        0 <= i < b.len(),
        b[i] == 0,
        forall|j: int| i < j < b.len() ==> b[j] != 0,
    ensures
        last_null_of(b) == i,
    decreases b.len(),
{
    if i == b.len() - 1 {
    } else {
        assert(b.last() != 0);
        lemma_last_null_at(b.drop_last(), i);
    }
}

/// A sequence of nonzero bytes has no last zero byte.
proof fn lemma_last_null_none(b: Seq<u8>)
    requires
        forall|j: int| 0 <= j < b.len() ==> b[j] != 0,
    ensures
        last_null_of(b) == -1,
    decreases b.len(),
{
    if b.len() == 0 {
    } else {
        lemma_last_null_none(b.drop_last());
    }
}

impl Message {
    /// Parse one frame out of a byte buffer, as [`parse_rel`] lays down.
    ///
    /// A buffer under the minimum frame size is `TooShort`; one without a
    /// terminator outside the fixed-size prefix is `NoNull`; then the
    /// timestamp, the identifier, the text's UTF-8 and the announced
    /// nickname codepoint count are each checked in turn.
    pub fn from_bytes(bytes: &[u8]) -> (r: Result<Message, MessageError>)
        ensures
            parse_rel(bytes@, r),
    {
        let n = bytes.len();
        if n < 12 {
            return Err(MessageError::TooShort(n));
        }
        let mut stop: usize = n;
        let mut i: usize = n;
        while i > 0
            invariant
                i <= n == bytes@.len(),
                stop <= n,
                stop == n ==> forall|j: int| i <= j < n ==> bytes@[j] != 0,
                stop < n ==> bytes@[stop as int] == 0 && (forall|j: int|
                    stop < j < n ==> bytes@[j] != 0),
            decreases i,
        {
            i -= 1;
            if stop == n && bytes[i] == 0 {
                stop = i;
            }
        }
        if stop == n {
            proof {
                lemma_last_null_none(bytes@);
            }
            return Err(MessageError::NoNull(slice_to_vec(bytes)));
        }
        proof {
            lemma_last_null_at(bytes@, stop as int);
        }
        if stop < 9 {
            return Err(MessageError::NoNull(slice_to_vec(bytes)));
        }
        let u: u64 = ((bytes[1] as u64) << 56) | ((bytes[2] as u64) << 48) | ((bytes[3] as u64)
            << 40) | ((bytes[4] as u64) << 32) | ((bytes[5] as u64) << 24) | ((bytes[6] as u64)
            << 16) | ((bytes[7] as u64) << 8) | (bytes[8] as u64);
        proof {
            let sub = bytes@.subrange(1, 9);
            assert(sub[0] == bytes@[1] && sub[1] == bytes@[2] && sub[2] == bytes@[3] && sub[3]
                == bytes@[4] && sub[4] == bytes@[5] && sub[5] == bytes@[6] && sub[6] == bytes@[7]
                && sub[7] == bytes@[8]);
            assert(u == u64_of_be(sub));
        }
        let ts = rep_to_ts(u);
        if !timestamp_valid(ts) {
            return Err(MessageError::InvalidTimestamp);
        }
        let header = Header::from_byte(bytes[0]);
        let data = header.get_bits::<Identifier>(None);
        let low = data & 0x03;
        proof {
            assert(data & 0x03 <= 3) by (bit_vector);
        }
        let idlen: usize = 4 - (low as usize);
        let avail: usize = stop - 9;
        let idtake: usize = if idlen <= avail {
            idlen
        } else {
            avail
        };
        let id_slice = slice_subrange(bytes, 9, 9 + idtake);
        let id = match Identifier::from_header(&header, id_slice) {
            Ok(id) => id,
            Err(e) => {
                return Err(MessageError::User(UserError::Identifier(e)));
            },
        };
        proof {
            assert(idtake == idlen);
        }
        let rest_slice = slice_subrange(bytes, 9 + idlen, stop);
        let rest = slice_to_vec(rest_slice);
        let text = match string_from_utf8(rest) {
            Some(s) => s,
            None => {
                return Err(MessageError::UTF8);
            },
        };
        proof {
            encode_utf8_decode_utf8(text@);
        }
        let announced = header.get_bits::<Nickname>(None) as usize + 1;
        proof {
            let b0 = bytes@[0];
            assert((b0 & 0x1F) >> 0 == b0 & 0x1F && b0 & 0x1F <= 31) by (bit_vector);
        }
        let total = text.as_str().unicode_len();
        if total < announced {
            return Err(MessageError::User(UserError::LengthMismatch(total, announced)));
        }
        let nick_str = text.as_str().substring_char(0, announced);
        let content_str = text.as_str().substring_char(announced, total);
        let nickname = match Nickname::from_str(nick_str) {
            Ok(nick) => nick,
            Err(_) => {
                proof {
                    assert(false);
                }
                return Err(MessageError::UTF8);
            },
        };
        let content = content_str.to_owned();
        let m = Message { written_on: ts, identifier: id, nickname, content };
        proof {
            let chars = decode_utf8(bytes@.subrange(9 + idlen, stop as int));
            assert(m.spec_nickname() =~= chars.take(announced as int));
            assert(m.spec_content() =~= chars.skip(announced as int));
        }
        Ok(m)
    }
}

/// Framing round-trips: whatever parsing returns on the frame of a message
/// with a nonzero identifier, a nickname of 1 to 32 codepoints free of NUL,
/// content free of NUL, and a representable send instant, it is a message
/// carrying the identifier, nickname, content and instant that were framed.
pub proof fn lemma_message_round_trip(
    id: u32,
    ts: i64,
    nick: Seq<char>,
    content: Seq<char>,
    r: Result<Message, MessageError>,
)
    requires
        id != 0,
        1 <= nick.len() <= 32,
        !nick.contains('\0'),
        !content.contains('\0'),
        timestamp_in_range(ts),
        parse_rel(frame_bytes(id, ts, nick, content), r),
    ensures
        r matches Ok(m) && m.spec_identifier() == id && m.spec_nickname() == nick
            && m.spec_content() == content && m.spec_written_on() == ts,
{
    let b = frame_bytes(id, ts, nick, content);
    crate::identifier::lemma_shape_decode(id);
    crate::text::lemma_encode_len(nick);
    crate::text::lemma_encode_len(content);
    let hb = frame_header_byte(id, nick);
    let u = rep_of_ts(ts);
    let idb = ident_bytes(id);
    let nb = encode_utf8(nick);
    let cb = encode_utf8(content);
    assert(b.len() == 10 + idb.len() + nb.len() + cb.len());
    assert(b.last() == 0);
    let stop = b.len() - 1;
    assert(last_null_of(b) == stop);
    assert(b.subrange(1, 9) =~= be8(u));
    lemma_u64_be_round_trip(u);
    lemma_ts_round_trip(ts);
    let s = shape_of(id);
    let g1 = (nick.len() - 1) as u8;
    assert(b[0] == hb);
    assert(((hb & 0xE0) >> 5) == s && (hb & 0x1F) == g1) by (bit_vector)
        requires
            hb == (s << 5) | g1,
            s <= 7,
            g1 <= 31,
    ;
    let take = (s & 0x03) as int;
    let idlen = 4 - take;
    assert(idb.len() == idlen);
    let avail = stop - 9;
    assert(avail == idb.len() + nb.len() + cb.len());
    assert(nb.len() >= 1);
    assert(b.subrange(9, 9 + idlen) =~= idb);
    assert(b.subrange(9 + idlen, stop) =~= nb + cb);
    crate::text::lemma_encode_concat(nick, content);
    let chars = nick + content;
    assert(nb + cb == encode_utf8(chars));
    vstd::utf8::encode_utf8_valid_utf8(chars);
    vstd::utf8::encode_utf8_decode_utf8(chars);
    let announced = (g1 as int) + 1;
    assert(announced == nick.len());
    assert(chars.len() >= announced);
    assert(chars.take(announced) =~= nick);
    assert(chars.skip(announced) =~= content);
}

impl HeaderComponent for Message {
    open spec fn spec_mask() -> u8 {
        0xFF
    }

    open spec fn spec_shift() -> u8 {
        0
    }

    open spec fn component_wf(&self) -> bool {
        self.wf() && self.spec_nickname().len() >= 1
    }

    open spec fn spec_component(&self) -> u8 {
        frame_header_byte(self.spec_identifier(), self.spec_nickname())
    }

    fn mask() -> u8 {
        0xFF
    }

    fn shift() -> u8 {
        0
    }

    /// The header byte combining the identifier's shape field with the
    /// nickname's length field.
    fn as_header_component(&self) -> (r: u8) {
        proof {
            self.nickname.lemma_bounds();
        }
        let h = Header::from_component(self.identifier).set(&self.nickname);
        let r = h.as_header_component();
        proof {
            let s = shape_of(self.spec_identifier());
            let g = (self.spec_nickname().len() - 1) as u8;
            assert(s <= 7) by {
                crate::identifier::lemma_shape_bound(self.spec_identifier());
            }
            assert(((s << 5) & !0x1Fu8) | (g << 0) == (s << 5) | g) by (bit_vector)
                requires
                    s <= 7,
                    g <= 31,
            ;
        }
        r
    }
}

} // verus!


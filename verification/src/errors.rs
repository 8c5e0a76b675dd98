//! Typed errors for the codec layers.

use vstd::prelude::*;

verus! {

/// Rejections raised while decoding a session identifier from the wire.
#[derive(Debug, PartialEq, Eq)]
pub enum IdentifierError {
    /// The byte slice handed over does not have the length that the header's
    /// shape field announces: `LengthMismatch(actual, expected)`.
    LengthMismatch(usize, usize),
    /// The decoded identifier is the reserved sentinel `0`, which is never
    /// valid on the wire.
    Zero,
}

/// Rejections raised while building or decoding a nickname.
#[derive(Debug, PartialEq, Eq)]
pub enum NicknameError {
    /// The text holds more codepoints than a nickname may carry:
    /// `TooManyGlyphs(text, count)`.
    TooManyGlyphs(String, usize),
    /// The bytes handed over are not valid UTF-8.
    UTF8,
}

/// Rejections raised while assembling a user's data out of a frame.
#[derive(Debug, PartialEq, Eq)]
pub enum UserError {
    /// A nickname could not be decoded.
    Nickname(NicknameError),
    /// An identifier could not be decoded.
    Identifier(IdentifierError),
    /// The count announced by the header mismatches what the frame holds:
    /// `LengthMismatch(actual, expected)`.
    LengthMismatch(usize, usize),
}

/// Rejections raised while framing or parsing a whole message.
#[derive(Debug, PartialEq, Eq)]
pub enum MessageError {
    /// The other party has gracefully closed the stream.
    ConnectionClosed,
    /// The other party hung up without prior notification.
    ConnectionInterrupted,
    /// Waiting for a message timed out.
    Timeout,
    /// A message was about to be framed before an identifier was assigned.
    NoIdentifier,
    /// A user's identifier or nickname could not be decoded.
    User(UserError),
    /// A frame's text section is not valid UTF-8.
    UTF8,
    /// The buffer is shorter than the minimum frame size: `TooShort(actual)`.
    TooShort(usize),
    /// The timestamp bytes do not name a valid calendar instant.
    InvalidTimestamp,
    /// The buffer holds no terminator byte outside the fixed-size prefix.
    NoNull(Vec<u8>),
}

/// Rejections raised while reading startup options from a program call.
#[derive(Debug, PartialEq, Eq)]
pub enum FromCallError {
    /// No value was found in the supplied tokens.
    NotFound,
    /// No arguments were supplied at all.
    NoArguments,
    /// A flag was raised, but the required value was not put in.
    NotSpecified,
    /// A numeric value could not be parsed.
    Parse,
}

} // verus!

use besked::errors::IdentifierError;
use besked::errors::MessageError;
use besked::errors::UserError;
use besked::Header;
use besked::HeaderComponent;
use besked::Identifier;
use besked::Message;
use besked::Nickname;

fn nick(text: &str) -> Nickname {
    Nickname::from_str(text).unwrap()
}

#[test]
fn header_fields_are_independent() {
    let id = Identifier::new(256);
    let name = nick("ab");
    let one = Header::from_byte(0).set(&id).set(&name);
    let other = Header::from_byte(0).set(&name).set(&id);
    assert_eq!(one.as_header_component(), other.as_header_component());
    assert_eq!(one.get_bits::<Identifier>(None), id.as_header_component());
    assert_eq!(one.get_bits::<Nickname>(None), name.as_header_component());
    assert_eq!(other.get_bits::<Identifier>(None), id.as_header_component());
    assert_eq!(other.get_bits::<Nickname>(None), name.as_header_component());
}

#[test]
fn header_fields_survive_noise() {
    let id = Identifier::new(0xFFFF_FFFF);
    let name = nick("abcdefghijklmnopqrstuvwxyzabcdef");
    let h = Header::from_byte(0b0101_0101).set(&id).set(&name);
    assert_eq!(h.get_bits::<Identifier>(None), 0);
    assert_eq!(h.get_bits::<Nickname>(None), 31);
}

fn assert_compaction(value: u32, expected_len: usize) {
    let id = Identifier::new(value);
    let bytes = id.as_bytes();
    assert_eq!(bytes.len(), expected_len);
    let header = Header::from_component(id);
    let decoded: Identifier = header.to_component(bytes.as_slice()).unwrap();
    assert_eq!(decoded.value(), value);
}

#[test]
fn identifier_compaction_is_minimal_and_lossless() {
    assert_compaction(1, 1);
    assert_compaction(255, 1);
    assert_compaction(256, 2);
    assert_compaction(65535, 2);
    assert_compaction(0x0100_0000, 1);
    assert_compaction(0xFFFF_FFFF, 4);
}

#[test]
fn identifier_tie_prefers_trimming_leading_zeroes() {
    // One leading and one trailing all-zero byte: the leading side is cut.
    let id = Identifier::new(0x00FF_FF00);
    assert_eq!(id.as_bytes(), vec![0xFF, 0xFF, 0x00]);
    // Flag bit clear, one byte dropped.
    assert_eq!(id.as_header_component(), 0b001);
    assert_compaction(0x00FF_FF00, 3);
}

#[test]
fn identifier_length_mismatch_is_rejected() {
    let header = Header::from_byte(0);
    let r: Result<Identifier, IdentifierError> = header.to_component(&[1u8, 2][..]);
    assert_eq!(r, Err(IdentifierError::LengthMismatch(2, 4)));
}

#[test]
fn identifier_zero_is_rejected_on_the_wire() {
    let id = Identifier::new(0x0000_0100);
    let header = Header::from_component(id);
    let r: Result<Identifier, IdentifierError> = header.to_component(&[0u8, 0][..]);
    assert_eq!(r, Err(IdentifierError::Zero));
}

#[test]
fn identifier_sentinel_helpers() {
    assert!(Identifier::empty().is_unset());
    assert!(!Identifier::new(3).is_unset());
    assert_eq!(Identifier::empty().value(), 0);
}

#[test]
fn message_round_trip_keeps_every_field() {
    let m = Message::empty()
        .identifier(Identifier::new(7))
        .nickname(nick("A\u{00F1}a\u{1F600}"))
        .content("hello w\u{00F6}rld");
    let ts = 1_431_648_000i64;
    let bytes = m.to_bytes(ts).unwrap();
    let parsed = Message::from_bytes(&bytes).unwrap();
    assert_eq!(parsed.get_identifier().value(), 7);
    assert_eq!(parsed.get_nickname().to_text(), "A\u{00F1}a\u{1F600}");
    assert_eq!(parsed.get_content(), "hello w\u{00F6}rld");
    assert_eq!(parsed.get_written_on(), ts);
}

#[test]
fn message_round_trip_with_negative_timestamp() {
    let m = Message::empty().identifier(Identifier::new(0x0102_0304)).nickname(nick("x"));
    let ts = -86_400i64;
    let bytes = m.to_bytes(ts).unwrap();
    let parsed = Message::from_bytes(&bytes).unwrap();
    assert_eq!(parsed.get_written_on(), ts);
    assert_eq!(parsed.get_identifier().value(), 0x0102_0304);
    assert_eq!(parsed.get_content(), "");
}

#[test]
fn message_round_trip_with_empty_content() {
    let m = Message::empty().identifier(Identifier::new(1)).nickname(nick("Ann"));
    let bytes = m.to_bytes(0).unwrap();
    assert_eq!(bytes.len(), 1 + 8 + 1 + 3 + 0 + 1);
    let parsed = Message::from_bytes(&bytes).unwrap();
    assert_eq!(parsed.get_nickname().to_text(), "Ann");
    assert_eq!(parsed.get_content(), "");
}

#[test]
fn send_without_identifier_is_refused() {
    let m = Message::empty().nickname(nick("Ann"));
    assert!(matches!(m.to_bytes(0), Err(MessageError::NoIdentifier)));
}

#[test]
fn short_buffer_is_too_short() {
    assert!(matches!(Message::from_bytes(&[0u8; 5]), Err(MessageError::TooShort(5))));
}

#[test]
fn buffer_without_terminator_is_no_null() {
    let buf = [1u8; 16];
    match Message::from_bytes(&buf) {
        Err(MessageError::NoNull(raw)) => assert_eq!(raw, buf.to_vec()),
        other => panic!("expected NoNull, got {:?}", other),
    }
}

#[test]
fn terminator_inside_fixed_prefix_is_no_null() {
    // The only zero byte sits inside the timestamp area.
    let mut buf = [1u8; 16];
    buf[4] = 0;
    match Message::from_bytes(&buf) {
        Err(MessageError::NoNull(raw)) => assert_eq!(raw, buf.to_vec()),
        other => panic!("expected NoNull, got {:?}", other),
    }
}

#[test]
fn out_of_range_timestamp_is_rejected() {
    let mut buf = vec![0x60u8];
    buf.extend_from_slice(&[0x7F, 0xFF, 0xFF, 0xFF, 0xFF, 0xFF, 0xFF, 0xFF]);
    buf.push(0x01);
    buf.push(b'A');
    buf.push(0);
    assert!(matches!(Message::from_bytes(&buf), Err(MessageError::InvalidTimestamp)));
}

#[test]
fn truncated_identifier_is_rejected() {
    // Shape 0 announces four identifier bytes, but only two fit before the
    // terminator.
    let mut buf = vec![0x00u8];
    buf.extend_from_slice(&[0u8; 8]);
    buf.push(0xFF);
    buf.push(b'A');
    buf.push(0);
    assert!(matches!(
        Message::from_bytes(&buf),
        Err(MessageError::User(UserError::Identifier(IdentifierError::LengthMismatch(2, 4)))),
    ));
}

#[test]
fn zero_identifier_frame_is_rejected() {
    let mut buf = vec![0x60u8];
    buf.extend_from_slice(&[0u8; 8]);
    buf.push(0x00);
    buf.push(b'A');
    buf.push(0);
    assert!(matches!(
        Message::from_bytes(&buf),
        Err(MessageError::User(UserError::Identifier(IdentifierError::Zero))),
    ));
}

#[test]
fn invalid_utf8_text_is_rejected() {
    let mut buf = vec![0x60u8];
    buf.extend_from_slice(&[0u8; 8]);
    buf.push(0x01);
    buf.push(0xFF);
    buf.push(0);
    assert!(matches!(Message::from_bytes(&buf), Err(MessageError::UTF8)));
}

#[test]
fn missing_nickname_glyphs_are_rejected() {
    // The header announces two codepoints; only one arrives.
    let mut buf = vec![0x61u8];
    buf.extend_from_slice(&[0u8; 8]);
    buf.push(0x01);
    buf.push(b'A');
    buf.push(0);
    assert!(matches!(
        Message::from_bytes(&buf),
        Err(MessageError::User(UserError::LengthMismatch(1, 2))),
    ));
}

#[test]
fn extra_codepoints_become_content() {
    // One announced nickname codepoint; the rest of the text is content.
    let mut buf = vec![0x60u8];
    buf.extend_from_slice(&[0u8; 8]);
    buf.push(0x01);
    buf.extend_from_slice("Ahoy".as_bytes());
    buf.push(0);
    let parsed = Message::from_bytes(&buf).unwrap();
    assert_eq!(parsed.get_nickname().to_text(), "A");
    assert_eq!(parsed.get_content(), "hoy");
    assert_eq!(parsed.get_identifier().value(), 1);
}

#[test]
fn builders_and_accessors_cover_each_field() {
    let mut m = Message::with_content("hi");
    assert_eq!(m.get_content(), "hi");
    assert_eq!(m.get_written_on(), 0);
    assert!(m.get_identifier().is_unset());
    m.set_identifier(Identifier::new(9));
    assert_eq!(m.get_identifier().value(), 9);
    m.set_nickname(nick("Bo"));
    assert_eq!(m.get_nickname().to_text(), "Bo");
    m.set_content("bye");
    assert_eq!(m.get_content(), "bye");
    let other = Message::with_nickname(nick("Cy"));
    assert_eq!(other.get_nickname().to_text(), "Cy");
    let third = Message::with_identifier(Identifier::new(2)).content("z");
    assert_eq!(third.get_identifier().value(), 2);
    assert_eq!(third.get_content(), "z");
}

#[test]
fn embedded_nul_is_found_at_the_codepoint_level() {
    assert!(!besked::text::has_embedded_nul("hello w\u{00F6}rld"));
    assert!(besked::text::has_embedded_nul("he\0llo"));
    assert!(besked::text::has_embedded_nul("\0"));
    assert!(!besked::text::has_embedded_nul(""));
}


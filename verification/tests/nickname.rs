use besked::errors::NicknameError;
use besked::Nickname;

fn nick(text: &str) -> Nickname {
    Nickname::from_str(text).unwrap()
}

#[test]
fn a_thirty_third_push_is_rejected() {
    let mut n = Nickname::new();
    for _ in 0..32 {
        assert!(n.push('a'));
    }
    assert_eq!(n.glyph_count(), 32);
    assert_eq!(n.len(), 32);
    assert!(!n.push('b'));
    assert_eq!(n.glyph_count(), 32);
    assert_eq!(n.len(), 32);
    assert_eq!(n.to_text(), "a".repeat(32));
}

#[test]
fn a_wide_push_at_125_bytes_is_rejected() {
    let mut n = Nickname::new();
    for _ in 0..31 {
        assert!(n.push('\u{1F600}'));
    }
    assert!(n.push('x'));
    assert_eq!(n.len(), 125);
    let glyphs = n.glyph_count();
    assert!(!n.push('\u{1F600}'));
    assert_eq!(n.len(), 125);
    assert_eq!(n.glyph_count(), glyphs);
}

#[test]
fn push_and_pop_report_codepoints() {
    let mut n = Nickname::new();
    assert!(n.push('a'));
    assert!(n.push('\u{00E9}'));
    assert!(n.push('\u{1F600}'));
    assert_eq!(n.len(), 1 + 2 + 4);
    assert_eq!(n.glyph_count(), 3);
    assert_eq!(n.pop(), Some('\u{1F600}'));
    assert_eq!(n.pop(), Some('\u{00E9}'));
    assert_eq!(n.pop(), Some('a'));
    assert_eq!(n.pop(), None);
    assert!(n.is_empty());
}

#[test]
fn insert_addresses_whole_codepoints() {
    let mut n = nick("ab");
    assert!(n.insert(1, '\u{1F600}'));
    assert_eq!(n.to_text(), "a\u{1F600}b");
    assert_eq!(n.glyph_count(), 3);
    assert_eq!(n.len(), 6);
    // Beyond the last codepoint: rejected, nothing moves.
    assert!(!n.insert(3, 'x'));
    assert_eq!(n.to_text(), "a\u{1F600}b");
}

#[test]
fn remove_takes_one_full_codepoint() {
    let mut n = nick("a\u{1F600}b");
    assert_eq!(n.remove(1), Some('\u{1F600}'));
    assert_eq!(n.to_text(), "ab");
    assert_eq!(n.len(), 2);
    assert_eq!(n.remove(5), None);
    assert_eq!(n.to_text(), "ab");
}

#[test]
fn replace_swaps_codepoints_of_unequal_width() {
    let mut n = nick("h\u{00E9}llo");
    assert_eq!(n.replace(1, 'e'), Some('\u{00E9}'));
    assert_eq!(n.to_text(), "hello");
    let mut wide = nick("ab");
    assert_eq!(wide.replace(0, '\u{1F600}'), Some('a'));
    assert_eq!(wide.to_text(), "\u{1F600}b");
    assert_eq!(wide.replace(9, 'z'), None);
}

#[test]
fn replace_tracks_bytes_at_the_limit() {
    let mut n = Nickname::new();
    for _ in 0..31 {
        assert!(n.push('\u{1F600}'));
    }
    assert!(n.push('x'));
    assert_eq!(n.len(), 125);
    // Widening the final one-byte codepoint reaches 128 bytes exactly.
    assert_eq!(n.replace(31, '\u{1F600}'), Some('x'));
    assert_eq!(n.len(), 128);
    assert_eq!(n.glyph_count(), 32);
    // Narrowing a four-byte codepoint always fits.
    assert_eq!(n.replace(0, 'y'), Some('\u{1F600}'));
    assert_eq!(n.len(), 125);
    assert_eq!(n.to_text().chars().next(), Some('y'));
}

#[test]
fn from_str_counts_codepoints() {
    assert_eq!(nick("\u{00E9}".repeat(32).as_str()).glyph_count(), 32);
    match Nickname::from_str("x".repeat(33).as_str()) {
        Err(NicknameError::TooManyGlyphs(text, count)) => {
            assert_eq!(text, "x".repeat(33));
            assert_eq!(count, 33);
        },
        other => panic!("expected TooManyGlyphs, got {:?}", other),
    }
}

#[test]
fn growth_policy_is_observable() {
    let mut n = Nickname::new();
    assert_eq!(n.capacity(), 0);
    n.reserve(5);
    assert_eq!(n.capacity(), 10);
    n.reserve(5);
    // Length has not reached the allocation: nothing happens.
    assert_eq!(n.capacity(), 10);
    n.reserve_exact(6);
    assert_eq!(n.capacity(), 16);
    n.reserve_exact(200);
    assert_eq!(n.capacity(), 128);
    assert!(n.push('a'));
    assert_eq!(n.available_bytes(), 127);
    n.shrink_to_fit();
    assert_eq!(n.capacity(), 1);
    n.shrink_to(0);
    // Shrinking under the text's length is refused.
    assert_eq!(n.capacity(), 1);
    n.clear();
    assert_eq!(n.capacity(), 1);
    assert_eq!(n.glyph_count(), 0);
    n.shrink_to(0);
    assert_eq!(n.capacity(), 0);
}

#[test]
fn with_capacity_quadruples_and_clamps() {
    assert_eq!(Nickname::with_capacity(8).unwrap().capacity(), 32);
    assert_eq!(Nickname::with_capacity(64).unwrap().capacity(), 128);
    assert!(Nickname::with_capacity(200).is_none());
    assert_eq!(Nickname::default().capacity(), 32);
}

#[test]
fn as_bytes_is_the_utf8_encoding() {
    let n = nick("a\u{00E9}");
    assert_eq!(n.as_bytes(), "a\u{00E9}".as_bytes());
}

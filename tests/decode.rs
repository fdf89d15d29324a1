use crossterm::event::{Event, InternalEvent, KeyCode, KeyEvent, ParseOptions, ALT, CONTROL};
use crossterm::parse::{decode_at, parse_event, Decoded};

fn plain() -> ParseOptions {
    ParseOptions { reading_cursor_position: false }
}

fn expecting_reply() -> ParseOptions {
    ParseOptions { reading_cursor_position: true }
}

fn key(code: KeyCode, modifiers: u8) -> InternalEvent {
    InternalEvent::Event(Event::Key(KeyEvent { code, modifiers }))
}

#[test]
fn cursor_reply_is_zero_based() {
    let r = parse_event(b"\x1b[24;80R", false, &plain());
    assert_eq!(r, Decoded::Complete(InternalEvent::CursorPosition(79, 23), 8));
}

#[test]
fn cursor_reply_over_field_ranges() {
    for (row, col) in [(1u32, 1u32), (1, 9999), (9999, 1), (9999, 9999), (37, 120), (2, 5)] {
        let text = format!("\x1b[{};{}R", row, col);
        let r = parse_event(text.as_bytes(), true, &expecting_reply());
        assert_eq!(
            r,
            Decoded::Complete(
                InternalEvent::CursorPosition((col - 1) as u16, (row - 1) as u16),
                text.len()
            )
        );
    }
}

#[test]
fn reply_prefixes_are_incomplete() {
    let reply = b"\x1b[12;40R";
    for n in 0..reply.len() {
        assert_eq!(parse_event(&reply[..n], true, &plain()), Decoded::Incomplete);
    }
}

#[test]
fn row_one_reads_as_f3_unless_a_reply_is_expected() {
    assert_eq!(parse_event(b"\x1b[1;5R", false, &plain()), Decoded::Complete(key(KeyCode::F(3), 4), 6));
    assert_eq!(
        parse_event(b"\x1b[1;5R", false, &expecting_reply()),
        Decoded::Complete(InternalEvent::CursorPosition(4, 0), 6)
    );
}

#[test]
fn malformed_reply_fields() {
    assert_eq!(parse_event(b"\x1b[0;5R", false, &plain()), Decoded::Malformed(6));
    assert_eq!(parse_event(b"\x1b[;5R", false, &plain()), Decoded::Malformed(5));
    assert_eq!(parse_event(b"\x1b[12R", false, &plain()), Decoded::Malformed(5));
    assert_eq!(parse_event(b"\x1b[70000;1R", false, &plain()), Decoded::Malformed(10));
    assert_eq!(parse_event(b"\x1b[1;2;3R", false, &plain()), Decoded::Malformed(8));
}

#[test]
fn non_final_byte_after_params_is_malformed() {
    assert_eq!(parse_event(b"\x1b[12\x01", false, &plain()), Decoded::Malformed(5));
}

#[test]
fn lone_escape_waits_for_more_input() {
    assert_eq!(parse_event(b"\x1b", true, &plain()), Decoded::Incomplete);
    assert_eq!(parse_event(b"\x1b", false, &plain()), Decoded::Complete(key(KeyCode::Esc, 0), 1));
    assert_eq!(parse_event(b"", false, &plain()), Decoded::Incomplete);
}

#[test]
fn escape_sequences_for_keys() {
    assert_eq!(parse_event(b"\x1b[A", false, &plain()), Decoded::Complete(key(KeyCode::Up, 0), 3));
    assert_eq!(parse_event(b"\x1b[D", false, &plain()), Decoded::Complete(key(KeyCode::Left, 0), 3));
    assert_eq!(parse_event(b"\x1bOP", false, &plain()), Decoded::Complete(key(KeyCode::F(1), 0), 3));
    assert_eq!(parse_event(b"\x1bO", true, &plain()), Decoded::Incomplete);
    assert_eq!(parse_event(b"\x1bOz", false, &plain()), Decoded::Malformed(3));
    assert_eq!(parse_event(b"\x1b[3~", false, &plain()), Decoded::Complete(key(KeyCode::Delete, 0), 4));
    assert_eq!(parse_event(b"\x1b[15~", false, &plain()), Decoded::Complete(key(KeyCode::F(5), 0), 5));
    assert_eq!(parse_event(b"\x1b[24~", false, &plain()), Decoded::Complete(key(KeyCode::F(12), 0), 5));
    assert_eq!(parse_event(b"\x1b[99~", false, &plain()), Decoded::Malformed(5));
    assert_eq!(parse_event(b"\x1b[Q", false, &plain()), Decoded::Malformed(3));
    assert_eq!(parse_event(b"\x1bx", false, &plain()), Decoded::Complete(key(KeyCode::Char(0x78), ALT), 2));
}

#[test]
fn single_bytes() {
    assert_eq!(parse_event(b"a", false, &plain()), Decoded::Complete(key(KeyCode::Char(0x61), 0), 1));
    assert_eq!(parse_event(b"\r", false, &plain()), Decoded::Complete(key(KeyCode::Enter, 0), 1));
    assert_eq!(parse_event(b"\t", false, &plain()), Decoded::Complete(key(KeyCode::Tab, 0), 1));
    assert_eq!(parse_event(b"\x7f", false, &plain()), Decoded::Complete(key(KeyCode::Backspace, 0), 1));
    assert_eq!(parse_event(b"\x03", false, &plain()), Decoded::Complete(key(KeyCode::Char(0x63), CONTROL), 1));
    assert_eq!(parse_event(b"\x00", false, &plain()), Decoded::Complete(key(KeyCode::Char(0x20), CONTROL), 1));
    assert_eq!(parse_event(b"ab", false, &plain()), Decoded::Complete(key(KeyCode::Char(0x61), 0), 1));
}

#[test]
fn multi_byte_text() {
    let e = "é".as_bytes();
    assert_eq!(parse_event(&e[..1], true, &plain()), Decoded::Incomplete);
    assert_eq!(parse_event(e, false, &plain()), Decoded::Complete(key(KeyCode::Char(0xe9), 0), 2));
    let euro = "€".as_bytes();
    assert_eq!(parse_event(&euro[..2], false, &plain()), Decoded::Incomplete);
    assert_eq!(parse_event(euro, false, &plain()), Decoded::Complete(key(KeyCode::Char(0x20ac), 0), 3));
    let crab = "🦀".as_bytes();
    assert_eq!(parse_event(crab, false, &plain()), Decoded::Complete(key(KeyCode::Char(0x1f980), 0), 4));
    assert_eq!(parse_event(b"\xc3\x41", false, &plain()), Decoded::Malformed(1));
    assert_eq!(parse_event(b"\xff", false, &plain()), Decoded::Malformed(1));
}

#[test]
fn invalid_utf8_forms_are_malformed() {
    assert_eq!(parse_event(b"\xe0\x80\x80", false, &plain()), Decoded::Malformed(1));
    assert_eq!(parse_event(b"\xed\xa0\x80", false, &plain()), Decoded::Malformed(1));
    assert_eq!(parse_event(b"\xf4\x90\x80\x80", false, &plain()), Decoded::Malformed(1));
    assert_eq!(parse_event(b"\xf0\x80", true, &plain()), Decoded::Malformed(1));
    assert_eq!(parse_event(b"\xe0", true, &plain()), Decoded::Incomplete);
    assert_eq!(parse_event(b"\xed\x9f\xbf", false, &plain()), Decoded::Complete(key(KeyCode::Char(0xd7ff), 0), 3));
    assert_eq!(parse_event(b"\xf4\x8f\xbf\xbf", false, &plain()), Decoded::Complete(key(KeyCode::Char(0x10ffff), 0), 4));
}

#[test]
fn decode_from_an_offset() {
    let buf = b"xy\x1b[5;6R";
    assert_eq!(decode_at(buf, 2, false, &expecting_reply()), Decoded::Complete(InternalEvent::CursorPosition(5, 4), 6));
    assert_eq!(decode_at(buf, buf.len(), false, &plain()), Decoded::Incomplete);
}

use crossterm::event::{Event, KeyCode, KeyEvent};
use crossterm::raw_mode::{RawModeController, TermMode};
use crossterm::stream::{ChunkPoll, DecodeError, EventStream, StreamPoll};
use crossterm::terminal::{
    disable_raw_mode, enable_raw_mode, is_raw_mode_enabled, size, supports_keyboard_enhancement,
    window_size, TerminalHandle, WindowSize,
};

fn cooked() -> TermMode {
    TermMode { echo: true, canonical: true, signals: true, other: 0x5a5 }
}

#[test]
fn enable_then_disable_restores_mode() {
    let mut c = RawModeController::new();
    assert!(!c.is_enabled());
    let raw = c.enable_target(cooked());
    assert_eq!(raw, TermMode { echo: false, canonical: false, signals: false, other: 0x5a5 });
    assert!(!c.is_enabled());
    c.record_enabled(cooked());
    assert!(c.is_enabled());
    assert_eq!(c.disable_target(raw), cooked());
    c.record_disabled();
    assert!(!c.is_enabled());
}

#[test]
fn enabling_twice_is_not_counted() {
    let mut c = RawModeController::new();
    let raw = c.enable_target(cooked());
    c.record_enabled(cooked());
    let raw2 = c.enable_target(raw);
    assert_eq!(raw2, raw);
    c.record_enabled(raw);
    assert_eq!(c.disable_target(raw2), cooked());
    c.record_disabled();
    assert_eq!(c.disable_target(cooked()), cooked());
}

#[test]
fn failed_set_leaves_state_alone() {
    let c = RawModeController::new();
    let _ = c.enable_target(cooked());
    assert!(!c.is_enabled());
    assert_eq!(c.disable_target(cooked()), cooked());
}

#[test]
fn stream_pending_then_event_then_pending() {
    let mut s = EventStream::new();
    assert!(matches!(s.poll_next(ChunkPoll::Pending), StreamPoll::Pending));
    let r = s.poll_next(ChunkPoll::Chunk(b"q".to_vec()));
    let expected = Event::Key(KeyEvent { code: KeyCode::Char(0x71), modifiers: 0 });
    assert!(matches!(r, StreamPoll::Ready(Some(Ok(e))) if e == expected));
    assert!(matches!(s.poll_next(ChunkPoll::Pending), StreamPoll::Pending));
}

#[test]
fn stream_hands_out_buffered_events_then_ends() {
    let mut s = EventStream::new();
    assert!(matches!(s.poll_next(ChunkPoll::Chunk(b"ab".to_vec())), StreamPoll::Ready(Some(Ok(_)))));
    let r = s.poll_next(ChunkPoll::Pending);
    let b = Event::Key(KeyEvent { code: KeyCode::Char(0x62), modifiers: 0 });
    assert!(matches!(r, StreamPoll::Ready(Some(Ok(e))) if e == b));
    assert!(matches!(s.poll_next(ChunkPoll::Closed), StreamPoll::Ready(None)));
}

#[test]
fn fresh_stream_yields_multi_byte_key() {
    let mut s = EventStream::new();
    let r = s.poll_next(ChunkPoll::Chunk("\u{e9}".as_bytes().to_vec()));
    let e = Event::Key(KeyEvent { code: KeyCode::Char(0xe9), modifiers: 0 });
    assert!(matches!(r, StreamPoll::Ready(Some(Ok(x))) if x == e));
}

#[test]
fn stream_continues_after_decode_error() {
    let mut s = EventStream::new();
    assert!(matches!(s.poll_next(ChunkPoll::Chunk(b"\x1b[99~".to_vec())), StreamPoll::Ready(Some(Err(DecodeError)))));
    let r = s.poll_next(ChunkPoll::Chunk(b"a".to_vec()));
    let a = Event::Key(KeyEvent { code: KeyCode::Char(0x61), modifiers: 0 });
    assert!(matches!(r, StreamPoll::Ready(Some(Ok(x))) if x == a));
}

#[test]
fn stream_partial_chunk_asks_for_more() {
    let mut s = EventStream::new();
    assert!(matches!(s.poll_next(ChunkPoll::Chunk(b"\x1b[".to_vec())), StreamPoll::NeedInput));
    let r = s.poll_next(ChunkPoll::Chunk(b"A".to_vec()));
    let up = Event::Key(KeyEvent { code: KeyCode::Up, modifiers: 0 });
    assert!(matches!(r, StreamPoll::Ready(Some(Ok(e))) if e == up));
}

#[test]
fn stream_reports_decode_errors() {
    let mut s = EventStream::new();
    assert!(matches!(s.poll_next(ChunkPoll::Chunk(b"\xff".to_vec())), StreamPoll::Ready(Some(Err(DecodeError)))));
    assert!(matches!(s.poll_next(ChunkPoll::Pending), StreamPoll::Pending));
}

#[test]
fn stream_keeps_cursor_replies_from_users() {
    let mut s = EventStream::new();
    assert!(matches!(s.poll_next(ChunkPoll::Chunk(b"\x1b[5;5R".to_vec())), StreamPoll::NeedInput));
}

#[test]
fn window_size_casts_values_to_u16() {
    let w = window_size(24, 80, 640, -3);
    assert_eq!(w, WindowSize { rows: 24, columns: 80, width: 640, height: 65533 });
    let w = window_size(70000, 1, 100000, 9);
    assert_eq!(w, WindowSize { rows: 4464, columns: 1, width: 34464, height: 9 });
    assert_eq!(size(&window_size(24, 80, 0, 0)), (80, 24));
}

#[test]
fn browser_terminal_answers() {
    assert!(is_raw_mode_enabled());
    assert!(enable_raw_mode().is_ok());
    assert!(disable_raw_mode().is_ok());
    assert_eq!(supports_keyboard_enhancement(), Ok(false));
}

#[test]
fn handle_flushes_text() {
    let mut h = TerminalHandle::new();
    assert_eq!(h.write(b"h\xc3"), 2);
    assert_eq!(h.write(b"\xa9llo"), 4);
    assert_eq!(h.flush(), Ok("h\u{e9}llo".to_string()));
    assert_eq!(h.flush_immutable(), Ok(String::new()));
}

#[test]
fn handle_rejects_invalid_text() {
    let mut h = TerminalHandle::new();
    h.write(b"\xff\xfe");
    assert!(h.flush().is_err());
    assert_eq!(h.flush(), Ok(String::new()));
}

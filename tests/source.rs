use crossterm::event::{Event, EventFilter, InternalEvent, KeyCode, KeyEvent, ParseOptions};
use crossterm::source::{EventReader, Waker};

fn plain() -> ParseOptions {
    ParseOptions { reading_cursor_position: false }
}

fn key(c: u8) -> InternalEvent {
    InternalEvent::Event(Event::Key(KeyEvent { code: KeyCode::Char(c as u32), modifiers: 0 }))
}

#[test]
fn wake_without_read_is_seen_once() {
    let mut r = EventReader::new();
    assert!(r.push_bytes(b"a", false, &plain()));
    r.wake();
    assert_eq!(r.try_read(EventFilter::Any), None);
    assert_eq!(r.try_read(EventFilter::Any), Some(key(b'a')));
    assert_eq!(r.try_read(EventFilter::Any), None);
}

#[test]
fn wake_on_empty_source() {
    let mut r = EventReader::new();
    r.wake();
    r.wake();
    assert_eq!(r.try_read(EventFilter::CursorPosition), None);
    assert!(r.push_bytes(b"b", false, &plain()));
    assert_eq!(r.try_read(EventFilter::Public), Some(key(b'b')));
}

#[test]
fn filtered_read_keeps_other_events_in_order() {
    let mut r = EventReader::new();
    let opts = ParseOptions { reading_cursor_position: true };
    assert!(r.push_bytes(b"ab\x1b[3;4Rc", false, &opts));
    assert!(r.has_event(EventFilter::CursorPosition));
    assert_eq!(r.try_read(EventFilter::CursorPosition), Some(InternalEvent::CursorPosition(3, 2)));
    assert!(!r.has_event(EventFilter::CursorPosition));
    assert_eq!(r.try_read(EventFilter::CursorPosition), None);
    assert_eq!(r.try_read(EventFilter::Any), Some(key(b'a')));
    assert_eq!(r.try_read(EventFilter::Any), Some(key(b'b')));
    assert_eq!(r.try_read(EventFilter::Any), Some(key(b'c')));
    assert_eq!(r.try_read(EventFilter::Any), None);
}

#[test]
fn public_read_skips_cursor_replies() {
    let mut r = EventReader::new();
    let opts = ParseOptions { reading_cursor_position: true };
    assert!(r.push_bytes(b"\x1b[1;1Rz", false, &opts));
    assert_eq!(r.try_read(EventFilter::Public), Some(key(b'z')));
    assert_eq!(r.try_read(EventFilter::Public), None);
    assert_eq!(r.try_read(EventFilter::Any), Some(InternalEvent::CursorPosition(0, 0)));
}

#[test]
fn split_sequence_across_pushes() {
    let mut r = EventReader::new();
    let opts = ParseOptions { reading_cursor_position: true };
    assert!(r.push_bytes(b"\x1b[24", true, &opts));
    assert_eq!(r.try_read(EventFilter::Any), None);
    assert!(r.push_bytes(b";80R", true, &opts));
    assert_eq!(r.try_read(EventFilter::Any), Some(InternalEvent::CursorPosition(79, 23)));
}

#[test]
fn malformed_bytes_are_dropped_and_input_continues() {
    let mut r = EventReader::new();
    assert!(!r.push_bytes(b"\x1b[99~q", false, &plain()));
    assert_eq!(r.try_read(EventFilter::Any), Some(key(b'q')));
    assert_eq!(r.try_read(EventFilter::Any), None);
}

#[test]
fn shared_waker_is_observed_once() {
    let mut r = EventReader::new();
    let w = Waker::new();
    let other = w.clone();
    assert!(r.push_bytes(b"k", false, &plain()));
    other.wake();
    other.wake();
    r.observe(&w);
    assert_eq!(r.try_read(EventFilter::Any), None);
    r.observe(&w);
    assert_eq!(r.try_read(EventFilter::Any), Some(key(b'k')));
    assert!(!w.take());
}

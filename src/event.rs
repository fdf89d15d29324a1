use vstd::prelude::*;

verus! {

/// Modifier bit for Shift, as carried in the wire's modifier field (value minus one).
pub const SHIFT: u8 = 1;

/// Modifier bit for Alt.
pub const ALT: u8 = 2;

/// Modifier bit for Control.
pub const CONTROL: u8 = 4;

/// The key that a key event reports.
#[derive(Clone, Copy, Debug, PartialEq, Eq, Structural)]
pub enum KeyCode {
    /// A character, as its Unicode code point.
    Char(u32),
    Enter,
    Tab,
    Backspace,
    Esc,
    Left,
    Right,
    Up,
    Down,
    Home,
    End,
    PageUp,
    PageDown,
    Insert,
    Delete,
    /// A function key, numbered from one.
    F(u8),
}

/// A key press together with the modifier bits held at the time.
#[derive(Clone, Copy, Debug, PartialEq, Eq, Structural)]
pub struct KeyEvent {
    pub code: KeyCode,
    pub modifiers: u8,
}

/// An event meant for the library's users.
#[derive(Clone, Copy, Debug, PartialEq, Eq, Structural)]
pub enum Event {
    Key(KeyEvent),
}

/// Everything the decoder can produce: user events, and the terminal's
/// reply to a cursor-position query, as zero-based (column, row).
#[derive(Clone, Copy, Debug, PartialEq, Eq, Structural)]
pub enum InternalEvent {
    Event(Event),
    CursorPosition(u16, u16),
}

/// Flags that settle ambiguous sequences while decoding.
#[derive(Clone, Copy, Debug, PartialEq, Eq, Structural)]
pub struct ParseOptions {
    /// Set while a cursor-position reply is expected: `ESC [ 1 ; m R` is then
    /// read as a position, not as F3 with modifiers.
    pub reading_cursor_position: bool,
}

/// Which decoded events a reader is waiting for.
#[derive(Clone, Copy, Debug, PartialEq, Eq, Structural)]
pub enum EventFilter {
    /// Every event.
    Any,
    /// Only user events.
    Public,
    /// Only cursor-position replies.
    CursorPosition,
}

/// Whether `e` satisfies the filter `f`.
pub open spec fn filter_accepts(f: EventFilter, e: InternalEvent) -> bool {
    match f {
        EventFilter::Any => true,
        EventFilter::Public => e is Event,
        EventFilter::CursorPosition => e is CursorPosition,
    }
}

impl EventFilter {
    pub fn accepts(&self, e: &InternalEvent) -> (r: bool)
        ensures
            r == filter_accepts(*self, *e),
    {
        match self {
            EventFilter::Any => true,
            EventFilter::Public => matches!(e, InternalEvent::Event(_)),
            EventFilter::CursorPosition => matches!(e, InternalEvent::CursorPosition(_, _)),
        }
    }
}

/// The key event with code `code` and modifier bits `modifiers`.
pub open spec fn key(code: KeyCode, modifiers: u8) -> InternalEvent {
    InternalEvent::Event(Event::Key(KeyEvent { code, modifiers }))
}

pub fn make_key(code: KeyCode, modifiers: u8) -> (r: InternalEvent)
    ensures
        r == key(code, modifiers),
{
    InternalEvent::Event(Event::Key(KeyEvent { code, modifiers }))
}

} // verus!

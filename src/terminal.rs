use vstd::prelude::*;

use crate::cursor::IoError;

verus! {

/// The terminal's size in cells and in pixels.
#[derive(Clone, Copy, Debug, PartialEq, Eq, Structural)]
pub struct WindowSize {
    pub rows: u16,
    pub columns: u16,
    pub width: u16,
    pub height: u16,
}

/// The window size from the emulator's geometry: rows and columns in
/// cells, width and height of its element in pixels, each cast to `u16`
/// (keeping the low sixteen bits).
pub fn window_size(rows: u32, columns: u32, width: i32, height: i32) -> (r: WindowSize)
    ensures
        r == (WindowSize {
            rows: rows as u16,
            columns: columns as u16,
            width: width as u16,
            height: height as u16,
        }),
{
    WindowSize {
        rows: rows as u16,
        columns: columns as u16,
        width: width as u16,
        height: height as u16,
    }
}

/// The size as (columns, rows).
pub fn size(w: &WindowSize) -> (r: (u16, u16))
    ensures
        r == (w.columns, w.rows),
{
    (w.columns, w.rows)
}

/// In the browser the emulator hands over every key as it comes: raw mode
/// is always on.
pub fn is_raw_mode_enabled() -> (r: bool)
    ensures
        r,
{
    true
}

/// Switching raw mode on in the browser: nothing to do.
pub fn enable_raw_mode() -> (r: Result<(), IoError>)
    ensures
        r is Ok,
{
    Ok(())
}

/// Switching raw mode off in the browser: nothing to do.
pub fn disable_raw_mode() -> (r: Result<(), IoError>)
    ensures
        r is Ok,
{
    Ok(())
}

/// The browser's emulator does not report keyboard enhancement.
pub fn supports_keyboard_enhancement() -> (r: Result<bool, IoError>)
    ensures
        r == Ok::<bool, IoError>(false),
{
    Ok(false)
}

/// The text that a byte string is as UTF-8, where it is valid UTF-8.
pub uninterp spec fn utf8_text(b: Seq<u8>) -> Option<Seq<char>>;

/// Relies on `String::from_utf8`: it accepts the bytes exactly when they
/// are valid UTF-8, and the text depends on the bytes alone; no bytes are
/// the empty text.
#[verifier::external_body]
fn text_from_utf8(b: Vec<u8>) -> (r: Option<String>)
    ensures
        match r {
            Some(s) => utf8_text(b@) == Some(s@),
            None => utf8_text(b@) is None,
        },
        b@.len() == 0 ==> r is Some && r->Some_0@.len() == 0,
{
    String::from_utf8(b).ok()
}

/// Buffered output was not valid UTF-8, and the emulator takes text only.
#[derive(Clone, Copy, Debug, PartialEq, Eq, Structural)]
pub struct InvalidUtf8;

/// Output for the browser's emulator: bytes collect here until a flush
/// turns them into the text to write.
pub struct TerminalHandle {
    buffer: Vec<u8>,
}

impl View for TerminalHandle {
    type V = Seq<u8>;

    closed spec fn view(&self) -> Seq<u8> {
        self.buffer@
    }
}

impl TerminalHandle {
    pub fn new() -> (r: Self)
        ensures
            r@.len() == 0,
    {
        TerminalHandle { buffer: Vec::new() }
    }

    /// Buffers all of `buf`.
    pub fn write(&mut self, buf: &[u8]) -> (n: usize)
        ensures
            n == buf@.len(),
            final(self)@ == old(self)@ + buf@,
    {
        self.buffer.extend_from_slice(buf);
        assert(self.buffer@ =~= old(self)@ + buf@);
        buf.len()
    }

    /// Empties the buffer, and returns its bytes as the text to write to
    /// the emulator, or an error where they are not valid UTF-8.
    pub fn flush_immutable(&mut self) -> (r: Result<String, InvalidUtf8>)
        ensures
            final(self)@.len() == 0,
            match r {
                Ok(s) => utf8_text(old(self)@) == Some(s@),
                Err(_) => utf8_text(old(self)@) is None,
            },
            old(self)@.len() == 0 ==> r is Ok && r->Ok_0@.len() == 0,
    {
        let bytes = self.buffer.split_off(0);
        assert(bytes@ =~= old(self)@);
        match text_from_utf8(bytes) {
            Some(s) => Ok(s),
            None => Err(InvalidUtf8),
        }
    }

    /// The same as `flush_immutable`: the buffer itself needs no flushing.
    pub fn flush(&mut self) -> (r: Result<String, InvalidUtf8>)
        ensures
            final(self)@.len() == 0,
            match r {
                Ok(s) => utf8_text(old(self)@) == Some(s@),
                Err(_) => utf8_text(old(self)@) is None,
            },
            old(self)@.len() == 0 ==> r is Ok && r->Ok_0@.len() == 0,
    {
        self.flush_immutable()
    }
}

} // verus!

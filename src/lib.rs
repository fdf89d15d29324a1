pub mod event;
pub mod parse;
pub mod source;
pub mod raw_mode;
pub mod cursor;
pub mod stream;
pub mod terminal;

//! A terminal-control library: a screen buffer of display-width-aware
//! cells, a decoder that turns raw terminal bytes into typed input events,
//! a cursor that tracks its position through capability-driven commands,
//! and a façade tying them together.

pub mod cursor;
pub mod decoder;
pub mod events;
pub mod matrix;
pub mod output;
pub mod paint;
pub mod pattern;
pub mod row;
pub mod rune;
pub mod term;
pub mod terminfo;
pub mod text;
pub mod width;

pub use cursor::Cursor;
pub use cursor::CursorCommand;
pub use decoder::DecodeStep;
pub use decoder::Decoder;
pub use decoder::Tier;
pub use events::Direction;
pub use events::Event;
pub use events::Input;
pub use matrix::Matrix;
pub use output::TermError;
pub use pattern::PatternTable;
pub use rune::Rune;
pub use term::Term;
pub use terminfo::TermInfo;
pub use width::col_width_char;
pub use width::col_width_str;

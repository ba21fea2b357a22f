//! Speech-bubble ASCII art: a mascot beside a bordered box of text, laid out
//! by display columns.

pub mod width;
pub mod text;
pub mod stack;
pub mod bubble;
pub mod mascot;

pub use bubble::say;
pub use mascot::{clippy, clippy_say};
pub use stack::horizontal_stack;
pub use text::longest_line_size;

//! A hex-dump library.
//!
//! Renders a sequence of bytes as classic hex-dump lines: each line shows an
//! eight-digit byte offset, the hexadecimal value of up to sixteen bytes, and
//! the printable-ASCII rendering of those same bytes.  Every formatting
//! function carries a contract that pins the produced bytes down exactly.

pub mod args;
pub mod dump;
pub mod render;

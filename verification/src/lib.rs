//! A tape machine for an eight-instruction language, and the table of open
//! sessions through which running programs are addressed.

pub mod brainfuck;
pub mod channel;
pub mod daemon;
pub mod error;
pub mod examples;
pub mod laws;
pub mod program;
pub mod scheme;
pub mod session;
pub mod tape;

//! sued: a vector-oriented line editor, as a verified library.
//!
//! The editor keeps its text as a buffer of lines (`Vec<String>`), and every
//! command works on that buffer by line number, counted from 1.
pub mod text;
pub mod pattern;
pub mod buffer;
pub mod file;
pub mod session;
pub mod command;
pub mod laws;

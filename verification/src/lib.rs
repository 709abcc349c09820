//! An interpreter for a small tape language.
//!
//! A program is a list of numbered states, one per line. Each state reads
//! the bit under a cursor on a binary tape of fixed length, performs the
//! actions of the branch that the bit selects, and goes on to the state that
//! the branch names, or to the next one. A run ends at the line `END` or
//! when the cursor has left the tape.
//!
//! [`program`] reads programs from text, [`validator`] examines them without
//! running them, and [`engine`] runs them. [`text`] holds the scanning that
//! they share, and [`laws`] what is proved of them all.

pub mod engine;
pub mod laws;
pub mod program;
pub mod text;
pub mod validator;

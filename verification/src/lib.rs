//! A verified parser and interpreter for the Pancake Stack esoteric
//! programming language: a line-oriented, stack-based language whose
//! programs manipulate a stack of unsigned 32-bit integers ("pancakes")
//! through a fixed set of seventeen sentence-shaped commands, with
//! labelled jump targets resolved lazily at execution time.

use vstd::prelude::*;

pub mod machine;
pub mod parse;
pub mod text;
pub mod unicode;

pub mod interpret;
pub mod laws;
pub mod stream;

pub use interpret::run_program;
pub use interpret::run_program_str;
pub use machine::Error;
pub use machine::Machine;
pub use parse::Command;
pub use parse::CommandParseError;
pub use parse::parse_program_report;
pub use parse::parse_program_str;
pub use stream::StreamEngine;

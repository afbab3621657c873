//! A two-pass assembler for a 16-bit instruction set: symbolic assembly lines
//! in, machine words out.

pub mod code;
pub mod error;
pub mod output;
pub mod parser;
pub mod source;
pub mod table;
pub mod text;
pub mod theorems;

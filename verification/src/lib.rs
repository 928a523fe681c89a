//! An assembler for the Hack 16-bit computer architecture.
//!
//! The library turns symbolic assembly source (address instructions such as
//! `@LOOP`, compute instructions such as `D=D+A;JGT`, and label declarations
//! such as `(LOOP)`) into 16-character binary machine words, resolving labels
//! and allocating data-memory addresses for variables along the way.

mod bytes;
mod driver;
mod encode;
mod hack;
mod laws;
mod parse;
mod passes;
mod table;

pub use driver::{
    assemble, clean_lines, run_first_pass, run_second_pass, run_translation, AsmError,
};
pub use encode::{translate_c_command, translate_comp, translate_dest, translate_jump};
pub use hack::{C_Command, Comp, Dest, Jump};
pub use parse::{parse_c_command, parse_label, parse_number};
pub use passes::{first_pass, second_pass, translate_a_command, translate_line, ErrorKind};
pub use table::SymbolTable;

//! Reads the symbol-table listings that a disassembler prints, one symbol per
//! line, into records that can be filtered, sorted and rendered.

pub mod chars;
pub mod html_utils;
pub mod string_utils;
pub mod symbol_table;

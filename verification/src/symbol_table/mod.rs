//! The symbol table: the line grammar, the records it yields, and the table
//! that collects them.

pub mod entry;
pub mod error;
pub mod flags;
pub mod order;
pub mod render;
pub mod select;
pub mod sort;
pub mod table;

pub use entry::{
    entry_views, parse_symbol_table_entry, parse_u32, EntryView, SymbolTableEntry,
};
pub use error::{ErrorKind, Failure, ParseError};
pub use flags::{
    parse_flag_bit, parse_flag_bit_constructor, parse_flag_bit_debugging,
    parse_flag_bit_reference, parse_flag_bit_scope, parse_flag_bit_type, parse_flag_bit_warning,
    parse_flag_bit_weakness, parse_symbol_flags, FlagColumn, SymbolConstructor, SymbolDebugging,
    SymbolReference, SymbolScope, SymbolTableFlags, SymbolType, SymbolWarning, SymbolWeakness,
};
pub use select::symbol_type_of_selector;
pub use table::SymbolTable;

//! Resolves addresses to function, source file and line through a Breakpad
//! symbol file, and rewrites crash-report frame lines with what they resolve to.

pub mod addr_map;
pub mod crash_log;
pub mod number;
pub mod parse;
pub mod range_map;
pub mod symbol;
pub mod text;
pub mod tokenize;

pub use crash_log::{get_ips_offsets, get_symed_line, symbolicate_line};
pub use parse::{parse_address, parse_breakpad_symbol_file, ParseError};
pub use range_map::RangeMap;
pub use symbol::{find_public_symbol_by_address, lookup_address, Function, Symbol, SymbolFile};
pub use tokenize::{tokenize, tokenize_with_optional_field};

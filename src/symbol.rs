use vstd::prelude::*;

use crate::addr_map::{floor_entry, AddrMap};
use crate::range_map::{range_lookup, RangeItem, RangeMap};

verus! {

/// A line record: an address range attributed to one source line.
pub struct Line {
    pub address: u64,
    pub size: u64,
    pub line_number: i64,
    pub source_file_id: i64,
}

/// A function record: an address range attributed to one function.
pub struct Function {
    pub address: u64,
    pub size: u64,
    pub stack_param_size: i64,
    pub name: String,
    pub is_multiple: bool,
}

impl View for Function {
    type V = (u64, u64, i64, Seq<char>, bool);

    open spec fn view(&self) -> (u64, u64, i64, Seq<char>, bool) {
        (self.address, self.size, self.stack_param_size, self.name@, self.is_multiple)
    }
}

impl Default for Function {
    fn default() -> (r: Function)
        ensures
            r.address == 0,
            r.size == 0,
            r.stack_param_size == 0,
            r.name@ == Seq::<char>::empty(),
            !r.is_multiple,
    {
        Function {
            address: 0,
            size: 0,
            stack_param_size: 0,
            name: String::new(),
            is_multiple: false,
        }
    }
}

/// A public symbol: a single address with no known extent.
pub struct PublicSymbol {
    pub address: u64,
    pub stack_param_size: i64,
    pub name: String,
    pub is_multiple: bool,
}

impl View for PublicSymbol {
    type V = (u64, i64, Seq<char>, bool);

    open spec fn view(&self) -> (u64, i64, Seq<char>, bool) {
        (self.address, self.stack_param_size, self.name@, self.is_multiple)
    }
}

/// What an address resolves to. An unknown file is empty, an unknown line -1.
pub struct Symbol {
    pub function_name: String,
    pub source_file_name: String,
    pub source_file_number: i64,
}

impl View for Symbol {
    type V = (Seq<char>, Seq<char>, i64);

    open spec fn view(&self) -> (Seq<char>, Seq<char>, i64) {
        (self.function_name@, self.source_file_name@, self.source_file_number)
    }
}

/// The records of one symbol file. File names are keyed by the file id's
/// bit pattern as `u64`.
pub struct SymbolFile {
    pub files: AddrMap<String>,
    pub functions: RangeMap<Function>,
    pub lines: RangeMap<Line>,
    pub public_symbols: AddrMap<PublicSymbol>,
}

impl SymbolFile {
    pub open spec fn wf(&self) -> bool {
        &&& self.files.wf()
        &&& self.functions.wf()
        &&& self.lines.wf()
        &&& self.public_symbols.wf()
    }

    /// A table with no records.
    pub fn new() -> (r: SymbolFile)
        ensures
            r.wf(),
            r.files@.is_empty(),
            r.functions@.is_empty(),
            r.lines@.is_empty(),
            r.public_symbols@.is_empty(),
    {
        SymbolFile {
            files: AddrMap::new(),
            functions: RangeMap::new(),
            lines: RangeMap::new(),
            public_symbols: AddrMap::new(),
        }
    }
}

/// The file names, by file id as `u64`.
pub open spec fn files_view(f: &SymbolFile) -> Map<u64, Seq<char>> {
    f.files@.map_values(|s: String| s@)
}

/// The function records, by start address, each with its range size.
pub open spec fn functions_view(f: &SymbolFile) -> Map<u64, (u64, (u64, u64, i64, Seq<char>, bool))> {
    f.functions@.map_values(|e: RangeItem<Function>| (e.size, e.item@))
}

/// The line records, by start address, each with its range size.
pub open spec fn lines_view(f: &SymbolFile) -> Map<u64, (u64, (u64, u64, i64, i64))> {
    f.lines@.map_values(
        |e: RangeItem<Line>|
            (e.size, (e.item.address, e.item.size, e.item.line_number, e.item.source_file_id)),
    )
}

/// The public symbols, by address.
pub open spec fn publics_view(f: &SymbolFile) -> Map<u64, (u64, i64, Seq<char>, bool)> {
    f.public_symbols@.map_values(|p: PublicSymbol| p@)
}

/// The name of the file with id `id`, or empty when the id is unknown.
pub open spec fn file_name_of(f: &SymbolFile, id: i64) -> Seq<char> {
    if f.files@.contains_key(id as u64) {
        f.files@[id as u64]@
    } else {
        Seq::empty()
    }
}

/// What `address` resolves to: the function whose range holds it, with the
/// line record whose range holds it; else the public symbol at the greatest
/// address at most `address`; else nothing.
pub open spec fn resolve(f: &SymbolFile, address: u64) -> Option<(Seq<char>, Seq<char>, i64)> {
    match range_lookup(f.functions@, address) {
        Some(func) => match range_lookup(f.lines@, address) {
            Some(line) => Some(
                (func.name@, file_name_of(f, line.source_file_id), line.line_number),
            ),
            None => Some((func.name@, Seq::empty(), -1i64)),
        },
        None => match floor_entry(f.public_symbols@, address) {
            Some((k, p)) => Some((p.name@, Seq::empty(), -1i64)),
            None => None,
        },
    }
}

/// The view of an optional symbol.
pub open spec fn symbol_view(r: Option<Symbol>) -> Option<(Seq<char>, Seq<char>, i64)> {
    match r {
        Some(s) => Some(s@),
        None => None,
    }
}

/// The public symbol at the greatest address at most `address`.
pub fn find_public_symbol_by_address(map: &AddrMap<PublicSymbol>, address: u64) -> (r: Option<
    &PublicSymbol,
>)
    requires
        map.wf(),
    ensures
        match r {
            Some(p) => floor_entry(map@, address) matches Some((k, q)) && q == *p,
            None => floor_entry(map@, address) is None,
        },
{
    match map.floor(address) {
        Some((_, p)) => Some(p),
        None => None,
    }
}

/// Resolves `address`: function and line records first, public symbols only
/// when no function range holds the address.
pub fn lookup_address(symbol_file: &SymbolFile, address: u64) -> (r: Option<Symbol>)
    requires
        symbol_file.wf(),
    ensures
        symbol_view(r) == resolve(symbol_file, address),
{
    if let Some(function_record) = symbol_file.functions.retrieve_range(address) {
        let mut symbol = Symbol {
            function_name: function_record.name.clone(),
            source_file_name: String::new(),
            source_file_number: -1,
        };
        if let Some(line) = symbol_file.lines.retrieve_range(address) {
            symbol.source_file_number = line.line_number;
            if let Some(filename) = symbol_file.files.get(line.source_file_id as u64) {
                symbol.source_file_name = filename.clone();
            }
        }
        Some(symbol)
    } else if let Some(public_record) = find_public_symbol_by_address(
        &symbol_file.public_symbols,
        address,
    ) {
        Some(
            Symbol {
                function_name: public_record.name.clone(),
                source_file_name: String::new(),
                source_file_number: -1,
            },
        )
    } else {
        None
    }
}

/// Function and line records come first: an address in a function's range
/// gets that function's name, with file and line from the line record whose
/// range holds it, or none known. Only where no function range holds the
/// address does the nearest public symbol at or below it answer.
pub proof fn lemma_resolve_priority(f: &SymbolFile, address: u64)
    ensures
        range_lookup(f.functions@, address) matches Some(func) ==> {
            &&& range_lookup(f.lines@, address) is None ==> resolve(f, address) == Some(
                (func.name@, Seq::<char>::empty(), -1i64),
            )
            &&& range_lookup(f.lines@, address) matches Some(line) ==> resolve(f, address)
                == Some((func.name@, file_name_of(f, line.source_file_id), line.line_number))
        },
        range_lookup(f.functions@, address) is None ==> match floor_entry(
            f.public_symbols@,
            address,
        ) {
            Some((k, p)) => resolve(f, address) == Some((p.name@, Seq::<char>::empty(), -1i64)),
            None => resolve(f, address) is None,
        },
{
}

} // verus!

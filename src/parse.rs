use vstd::prelude::*;

use crate::number::{parse_i64, parse_i64_spec, parse_u64, parse_u64_spec};
use crate::addr_map::{is_floor, lemma_floor_unique};
use crate::range_map::range_lookup;
use crate::symbol::{
    resolve, files_view, functions_view, lines_view, publics_view, Function, Line, PublicSymbol,
    SymbolFile,
};
use crate::text::{
    chars_of, copy_range, has_prefix, starts_with, strs_view, trim, trim_chars, vecs_view,
};
use crate::tokenize::{tokenize_chars, tokenize_chars_with_flag, tokens_of, tokens_with_flag};

verus! {

pub open spec fn file_prefix() -> Seq<char> {
    seq!['F', 'I', 'L', 'E', ' ']
}

pub open spec fn func_prefix() -> Seq<char> {
    seq!['F', 'U', 'N', 'C', ' ']
}

pub open spec fn public_prefix() -> Seq<char> {
    seq!['P', 'U', 'B', 'L', 'I', 'C', ' ']
}

pub open spec fn stack_prefix() -> Seq<char> {
    seq!['S', 'T', 'A', 'C', 'K', ' ']
}

pub open spec fn module_prefix() -> Seq<char> {
    seq!['M', 'O', 'D', 'U', 'L', 'E', ' ']
}

pub open spec fn info_prefix() -> Seq<char> {
    seq!['I', 'N', 'F', 'O', ' ']
}

/// The marker of a record defined more than once.
pub open spec fn multiple_marker() -> Seq<char> {
    seq!['m']
}

pub open spec fn space() -> Seq<char> {
    seq![' ']
}

/// The fields after a record's keyword, trimmed.
pub open spec fn record_body(line: Seq<char>, keyword_len: int) -> Seq<char> {
    trim(line.subrange(keyword_len, line.len() as int))
}

/// `FILE <id> <name>`: the id (decimal) and the name.
pub open spec fn file_record(line: Seq<char>) -> Option<(i64, Seq<char>)> {
    let t = tokens_of(record_body(line, 5), space(), 2);
    if t.len() < 2 {
        None
    } else {
        match parse_i64_spec(t[0], 10) {
            Some(id) => Some((id, t[1])),
            None => None,
        }
    }
}

/// `FUNC [m] <address> <size> <param_size> <name>`, numbers in hex: the
/// address, size, parameter size, name and whether `m` was there.
pub open spec fn func_record(line: Seq<char>) -> Option<(u64, u64, i64, Seq<char>, bool)> {
    let t = tokens_with_flag(record_body(line, 5), multiple_marker(), space(), 5);
    let multiple = t.len() >= 5 && t[0] == multiple_marker();
    let o: int = if multiple {
        1
    } else {
        0
    };
    if t.len() < o + 4 {
        None
    } else {
        match (
            parse_u64_spec(t[o], 16),
            parse_u64_spec(t[o + 1], 16),
            parse_i64_spec(t[o + 2], 16),
        ) {
            (Some(a), Some(s), Some(p)) => Some((a, s, p, t[o + 3], multiple)),
            _ => None,
        }
    }
}

/// `PUBLIC [m] <address> <param_size> <name>`, numbers in hex: the address,
/// parameter size, name and whether `m` was there.
pub open spec fn public_record(line: Seq<char>) -> Option<(u64, i64, Seq<char>, bool)> {
    let t = tokens_with_flag(record_body(line, 7), multiple_marker(), space(), 4);
    let multiple = t.len() >= 4 && t[0] == multiple_marker();
    let o: int = if multiple {
        1
    } else {
        0
    };
    if t.len() < o + 3 {
        None
    } else {
        match (parse_u64_spec(t[o], 16), parse_i64_spec(t[o + 1], 16)) {
            (Some(a), Some(p)) => Some((a, p, t[o + 2], multiple)),
            _ => None,
        }
    }
}

/// `<address> <size> <line> <file_id>`: address and size in hex, line and
/// file id in decimal.
pub open spec fn line_record(line: Seq<char>) -> Option<(u64, u64, i64, i64)> {
    let t = tokens_of(trim(line), space(), 4);
    if t.len() < 4 {
        None
    } else {
        match (
            parse_u64_spec(t[0], 16),
            parse_u64_spec(t[1], 16),
            parse_i64_spec(t[2], 10),
            parse_i64_spec(t[3], 10),
        ) {
            (Some(a), Some(s), Some(n), Some(f)) => Some((a, s, n, f)),
            _ => None,
        }
    }
}

/// A line that holds no record: metadata, unwind data, or white space only.
pub open spec fn is_ignored(line: Seq<char>) -> bool {
    has_prefix(line, stack_prefix()) || has_prefix(line, module_prefix()) || has_prefix(
        line,
        info_prefix(),
    ) || (!has_prefix(line, file_prefix()) && !has_prefix(line, func_prefix()) && !has_prefix(
        line,
        public_prefix(),
    ) && trim(line).len() == 0)
}

/// A line record is any line that has none of the keywords and is not blank.
pub open spec fn is_line_line(line: Seq<char>) -> bool {
    !has_prefix(line, file_prefix()) && !has_prefix(line, func_prefix()) && !has_prefix(
        line,
        public_prefix(),
    ) && !is_ignored(line)
}

/// The line is ignored or holds a well-formed record of its kind.
pub open spec fn line_ok(line: Seq<char>) -> bool {
    if has_prefix(line, file_prefix()) {
        file_record(line) is Some
    } else if has_prefix(line, func_prefix()) {
        func_record(line) is Some
    } else if has_prefix(line, public_prefix()) {
        public_record(line) is Some
    } else if is_ignored(line) {
        true
    } else {
        line_record(line) is Some
    }
}

/// The file names that the lines `ls` define; a later one replaces an earlier.
pub open spec fn files_after(ls: Seq<Seq<char>>) -> Map<u64, Seq<char>>
    decreases ls.len(),
{
    if ls.len() == 0 {
        Map::empty()
    } else {
        let m = files_after(ls.drop_last());
        if has_prefix(ls.last(), file_prefix()) {
            match file_record(ls.last()) {
                Some((id, name)) => m.insert(id as u64, name),
                None => m,
            }
        } else {
            m
        }
    }
}

/// The function records that the lines `ls` define, by address, with sizes.
pub open spec fn functions_after(ls: Seq<Seq<char>>) -> Map<
    u64,
    (u64, (u64, u64, i64, Seq<char>, bool)),
>
    decreases ls.len(),
{
    if ls.len() == 0 {
        Map::empty()
    } else {
        let m = functions_after(ls.drop_last());
        if has_prefix(ls.last(), func_prefix()) {
            match func_record(ls.last()) {
                Some(f) => m.insert(f.0, (f.1, f)),
                None => m,
            }
        } else {
            m
        }
    }
}

/// The public symbols that the lines `ls` define, by address.
pub open spec fn publics_after(ls: Seq<Seq<char>>) -> Map<u64, (u64, i64, Seq<char>, bool)>
    decreases ls.len(),
{
    if ls.len() == 0 {
        Map::empty()
    } else {
        let m = publics_after(ls.drop_last());
        if has_prefix(ls.last(), public_prefix()) {
            match public_record(ls.last()) {
                Some(p) => m.insert(p.0, p),
                None => m,
            }
        } else {
            m
        }
    }
}

/// The line records that the lines `ls` define, by address, with sizes.
pub open spec fn lines_after(ls: Seq<Seq<char>>) -> Map<u64, (u64, (u64, u64, i64, i64))>
    decreases ls.len(),
{
    if ls.len() == 0 {
        Map::empty()
    } else {
        let m = lines_after(ls.drop_last());
        if is_line_line(ls.last()) {
            match line_record(ls.last()) {
                Some(l) => m.insert(l.0, (l.1, l)),
                None => m,
            }
        } else {
            m
        }
    }
}

/// A symbol file of `ls` holds exactly the records that `ls` define.
pub open spec fn holds_records_of(f: &SymbolFile, ls: Seq<Seq<char>>) -> bool {
    &&& f.wf()
    &&& files_view(f) == files_after(ls)
    &&& functions_view(f) == functions_after(ls)
    &&& publics_view(f) == publics_after(ls)
    &&& lines_view(f) == lines_after(ls)
}

proof fn lemma_tokens_view(v: Seq<Vec<char>>, t: Seq<Seq<char>>)
    requires
        vecs_view(v) == t,
    ensures
        v.len() == t.len(),
        forall|i: int| 0 <= i < v.len() ==> (#[trigger] v[i])@ == t[i],
{
    assert forall|i: int| 0 <= i < v.len() implies (#[trigger] v[i])@ == t[i] by {
        assert(vecs_view(v)[i] == v[i]@);
    }
}

/// The first malformed line of a symbol file.
pub struct ParseError {
    pub line_index: usize,
}

/// Parses and stores a `FILE` record; false, with nothing stored, when it is
/// malformed.
pub fn parse_file_line(symbol: &mut SymbolFile, line: &[char]) -> (r: bool)
    requires
        old(symbol).wf(),
        has_prefix(line@, file_prefix()),
    ensures
        final(symbol).wf(),
        r == (file_record(line@) is Some),
        files_view(final(symbol)) == match file_record(line@) {
            Some((id, name)) => files_view(old(symbol)).insert(id as u64, name),
            None => files_view(old(symbol)),
        },
        functions_view(final(symbol)) == functions_view(old(symbol)),
        publics_view(final(symbol)) == publics_view(old(symbol)),
        lines_view(final(symbol)) == lines_view(old(symbol)),
{
    let body = trim_chars(&copy_range(line, 5, line.len()));
    let sp = vec![' '];
    assert(sp@ =~= space());
    let tokens = tokenize_chars(&body, &sp, 2);
    proof {
        lemma_tokens_view(tokens@, tokens_of(body@, space(), 2));
    }
    if tokens.len() < 2 {
        return false;
    }
    let id = match parse_i64(&tokens[0], 10) {
        Some(id) => id,
        None => {
            return false;
        },
    };
    let name = crate::text::string_of(&tokens[1]);
    let ghost before = files_view(symbol);
    symbol.files.insert(id as u64, name);
    assert(files_view(symbol) =~= before.insert(id as u64, name@));
    true
}

/// Parses and stores a `FUNC` record; false, with nothing stored, when it is
/// malformed.
pub fn parse_func_line(symbol: &mut SymbolFile, line: &[char]) -> (r: bool)
    requires
        old(symbol).wf(),
        has_prefix(line@, func_prefix()),
    ensures
        final(symbol).wf(),
        r == (func_record(line@) is Some),
        functions_view(final(symbol)) == match func_record(line@) {
            Some(f) => functions_view(old(symbol)).insert(f.0, (f.1, f)),
            None => functions_view(old(symbol)),
        },
        files_view(final(symbol)) == files_view(old(symbol)),
        publics_view(final(symbol)) == publics_view(old(symbol)),
        lines_view(final(symbol)) == lines_view(old(symbol)),
{
    let body = trim_chars(&copy_range(line, 5, line.len()));
    let sp = vec![' '];
    assert(sp@ =~= space());
    let mk = vec!['m'];
    assert(mk@ =~= multiple_marker());
    let tokens = tokenize_chars_with_flag(&body, &mk, &sp, 5);
    let ghost t = tokens_with_flag(body@, multiple_marker(), space(), 5);
    proof {
        lemma_tokens_view(tokens@, t);
    }
    let is_multiple = tokens.len() >= 5 && crate::text::same_chars(&tokens[0], &mk);
    let offset: usize = if is_multiple {
        1
    } else {
        0
    };
    if tokens.len() < offset + 4 {
        return false;
    }
    let address = match parse_u64(&tokens[offset], 16) {
        Some(v) => v,
        None => {
            return false;
        },
    };
    let size = match parse_u64(&tokens[offset + 1], 16) {
        Some(v) => v,
        None => {
            return false;
        },
    };
    let stack_param_size = match parse_i64(&tokens[offset + 2], 16) {
        Some(v) => v,
        None => {
            return false;
        },
    };
    let name = crate::text::string_of(&tokens[offset + 3]);
    let function = Function { address, size, stack_param_size, name, is_multiple };
    let ghost before = functions_view(symbol);
    let ghost fv = function@;
    symbol.functions.insert(address, size, function);
    assert(functions_view(symbol) =~= before.insert(address, (size, fv)));
    true
}

/// Parses and stores a `PUBLIC` record; false, with nothing stored, when it
/// is malformed.
pub fn parse_public_line(symbol: &mut SymbolFile, line: &[char]) -> (r: bool)
    requires
        old(symbol).wf(),
        has_prefix(line@, public_prefix()),
    ensures
        final(symbol).wf(),
        r == (public_record(line@) is Some),
        publics_view(final(symbol)) == match public_record(line@) {
            Some(p) => publics_view(old(symbol)).insert(p.0, p),
            None => publics_view(old(symbol)),
        },
        files_view(final(symbol)) == files_view(old(symbol)),
        functions_view(final(symbol)) == functions_view(old(symbol)),
        lines_view(final(symbol)) == lines_view(old(symbol)),
{
    let body = trim_chars(&copy_range(line, 7, line.len()));
    let sp = vec![' '];
    assert(sp@ =~= space());
    let mk = vec!['m'];
    assert(mk@ =~= multiple_marker());
    let tokens = tokenize_chars_with_flag(&body, &mk, &sp, 4);
    let ghost t = tokens_with_flag(body@, multiple_marker(), space(), 4);
    proof {
        lemma_tokens_view(tokens@, t);
    }
    let is_multiple = tokens.len() >= 4 && crate::text::same_chars(&tokens[0], &mk);
    let offset: usize = if is_multiple {
        1
    } else {
        0
    };
    if tokens.len() < offset + 3 {
        return false;
    }
    let address = match parse_u64(&tokens[offset], 16) {
        Some(v) => v,
        None => {
            return false;
        },
    };
    let stack_param_size = match parse_i64(&tokens[offset + 1], 16) {
        Some(v) => v,
        None => {
            return false;
        },
    };
    let name = crate::text::string_of(&tokens[offset + 2]);
    let public_symbol = PublicSymbol { address, stack_param_size, name, is_multiple };
    let ghost before = publics_view(symbol);
    let ghost pv = public_symbol@;
    symbol.public_symbols.insert(address, public_symbol);
    assert(publics_view(symbol) =~= before.insert(address, pv));
    true
}

/// Parses and stores a line record; false, with nothing stored, when it is
/// malformed.
pub fn parse_line_line(symbol: &mut SymbolFile, line: &[char]) -> (r: bool)
    requires
        old(symbol).wf(),
    ensures
        final(symbol).wf(),
        r == (line_record(line@) is Some),
        lines_view(final(symbol)) == match line_record(line@) {
            Some(l) => lines_view(old(symbol)).insert(l.0, (l.1, l)),
            None => lines_view(old(symbol)),
        },
        files_view(final(symbol)) == files_view(old(symbol)),
        functions_view(final(symbol)) == functions_view(old(symbol)),
        publics_view(final(symbol)) == publics_view(old(symbol)),
{
    let body = trim_chars(line);
    let sp = vec![' '];
    assert(sp@ =~= space());
    let tokens = tokenize_chars(&body, &sp, 4);
    let ghost t = tokens_of(body@, space(), 4);
    proof {
        lemma_tokens_view(tokens@, t);
    }
    if tokens.len() < 4 {
        return false;
    }
    let address = match parse_u64(&tokens[0], 16) {
        Some(v) => v,
        None => {
            return false;
        },
    };
    let size = match parse_u64(&tokens[1], 16) {
        Some(v) => v,
        None => {
            return false;
        },
    };
    let line_number = match parse_i64(&tokens[2], 10) {
        Some(v) => v,
        None => {
            return false;
        },
    };
    let source_file_id = match parse_i64(&tokens[3], 10) {
        Some(v) => v,
        None => {
            return false;
        },
    };
    let record = Line { address, size, line_number, source_file_id };
    let ghost before = lines_view(symbol);
    symbol.lines.insert(address, size, record);
    assert(lines_view(symbol) =~= before.insert(
        address,
        (size, (address, size, line_number, source_file_id)),
    ));
    true
}

proof fn lemma_prefix_char(l: Seq<char>, p: Seq<char>, k: int)
    requires
        has_prefix(l, p),
        0 <= k < p.len(),
    ensures
        l[k] == p[k],
{
    assert(l.subrange(0, p.len() as int)[k] == l[k]);
}

/// A line starts with at most one keyword.
proof fn lemma_keywords_exclusive(l: Seq<char>)
    ensures
        has_prefix(l, file_prefix()) ==> !has_prefix(l, func_prefix()) && !has_prefix(
            l,
            public_prefix(),
        ) && !has_prefix(l, stack_prefix()) && !has_prefix(l, module_prefix()) && !has_prefix(
            l,
            info_prefix(),
        ),
        has_prefix(l, func_prefix()) ==> !has_prefix(l, public_prefix()) && !has_prefix(
            l,
            stack_prefix(),
        ) && !has_prefix(l, module_prefix()) && !has_prefix(l, info_prefix()),
        has_prefix(l, public_prefix()) ==> !has_prefix(l, stack_prefix()) && !has_prefix(
            l,
            module_prefix(),
        ) && !has_prefix(l, info_prefix()),
{
    if has_prefix(l, file_prefix()) {
        lemma_prefix_char(l, file_prefix(), 0);
        lemma_prefix_char(l, file_prefix(), 1);
        if has_prefix(l, func_prefix()) {
            lemma_prefix_char(l, func_prefix(), 1);
        }
    }
    if has_prefix(l, func_prefix()) {
        lemma_prefix_char(l, func_prefix(), 0);
    }
    if has_prefix(l, public_prefix()) {
        lemma_prefix_char(l, public_prefix(), 0);
    }
    if has_prefix(l, stack_prefix()) {
        lemma_prefix_char(l, stack_prefix(), 0);
    }
    if has_prefix(l, module_prefix()) {
        lemma_prefix_char(l, module_prefix(), 0);
    }
    if has_prefix(l, info_prefix()) {
        lemma_prefix_char(l, info_prefix(), 0);
    }
}

/// Parses the lines of a symbol file. Each line is read by its keyword:
/// `FILE`, `FUNC` and `PUBLIC` records and line records are stored, `STACK`,
/// `MODULE`, `INFO` and blank lines are passed over. A malformed line is
/// passed over when `skip_malformed` holds, and otherwise ends the parse with
/// its index.
pub fn parse_breakpad_symbol_file(lines: &Vec<String>, skip_malformed: bool) -> (r: Result<
    SymbolFile,
    ParseError,
>)
    ensures
        match r {
            Ok(f) => holds_records_of(&f, strs_view(lines@)) && (skip_malformed || forall|i: int|
                0 <= i < lines@.len() ==> line_ok(#[trigger] strs_view(lines@)[i])),
            Err(e) => {
                &&& !skip_malformed
                &&& e.line_index < lines@.len()
                &&& !line_ok(strs_view(lines@)[e.line_index as int])
                &&& forall|j: int|
                    0 <= j < e.line_index ==> line_ok(#[trigger] strs_view(lines@)[j])
            },
        },
{
    let ghost ls = strs_view(lines@);
    let mut symbol = SymbolFile::new();
    let file_kw = vec!['F', 'I', 'L', 'E', ' '];
    let func_kw = vec!['F', 'U', 'N', 'C', ' '];
    let public_kw = vec!['P', 'U', 'B', 'L', 'I', 'C', ' '];
    let stack_kw = vec!['S', 'T', 'A', 'C', 'K', ' '];
    let module_kw = vec!['M', 'O', 'D', 'U', 'L', 'E', ' '];
    let info_kw = vec!['I', 'N', 'F', 'O', ' '];
    assert(file_kw@ =~= file_prefix());
    assert(func_kw@ =~= func_prefix());
    assert(public_kw@ =~= public_prefix());
    assert(stack_kw@ =~= stack_prefix());
    assert(module_kw@ =~= module_prefix());
    assert(info_kw@ =~= info_prefix());
    assert(files_view(&symbol) =~= files_after(ls.subrange(0, 0)));
    assert(functions_view(&symbol) =~= functions_after(ls.subrange(0, 0)));
    assert(publics_view(&symbol) =~= publics_after(ls.subrange(0, 0)));
    assert(lines_view(&symbol) =~= lines_after(ls.subrange(0, 0)));
    let mut i: usize = 0;
    while i < lines.len()
        invariant
            ls == strs_view(lines@),
            i <= lines@.len(),
            file_kw@ == file_prefix(),
            func_kw@ == func_prefix(),
            public_kw@ == public_prefix(),
            stack_kw@ == stack_prefix(),
            module_kw@ == module_prefix(),
            info_kw@ == info_prefix(),
            holds_records_of(&symbol, ls.subrange(0, i as int)),
            skip_malformed || forall|j: int| 0 <= j < i ==> line_ok(#[trigger] ls[j]),
        decreases lines.len() - i,
    {
        let l = chars_of(lines[i].as_str());
        let ghost prev = ls.subrange(0, i as int);
        let ghost next = ls.subrange(0, i + 1);
        assert(ls[i as int] == lines@[i as int]@);
        assert(next.drop_last() =~= prev);
        assert(next.last() == l@);
        proof {
            lemma_keywords_exclusive(l@);
        }
        let ok = if starts_with(&l, &file_kw) {
            parse_file_line(&mut symbol, &l)
        } else if starts_with(&l, &func_kw) {
            parse_func_line(&mut symbol, &l)
        } else if starts_with(&l, &public_kw) {
            parse_public_line(&mut symbol, &l)
        } else if starts_with(&l, &stack_kw) || starts_with(&l, &module_kw) || starts_with(
            &l,
            &info_kw,
        ) {
            true
        } else if trim_chars(&l).len() == 0 {
            true
        } else {
            parse_line_line(&mut symbol, &l)
        };
        assert(ok == line_ok(l@));
        if !ok && !skip_malformed {
            return Err(ParseError { line_index: i });
        }
        i += 1;
    }
    assert(ls.subrange(0, lines@.len() as int) =~= ls);
    Ok(symbol)
}

/// An address in hex, with or without a leading `0x`.
pub open spec fn address_value(s: Seq<char>) -> Option<u64> {
    if has_prefix(s, seq!['0', 'x']) {
        parse_u64_spec(s.subrange(2, s.len() as int), 16)
    } else {
        parse_u64_spec(s, 16)
    }
}

/// Reads an address in hex, with or without a leading `0x`.
pub fn parse_address(address: &str) -> (r: Option<u64>)
    ensures
        r == address_value(address@),
{
    let s = chars_of(address);
    let mark = vec!['0', 'x'];
    assert(mark@ =~= seq!['0', 'x']);
    if starts_with(&s, &mark) {
        parse_u64(&copy_range(&s, 2, s.len()), 16)
    } else {
        parse_u64(&s, 16)
    }
}

/// Every line is a well-formed `FUNC` record, and no two of the functions'
/// ranges share an address.
pub open spec fn disjoint_function_lines(ls: Seq<Seq<char>>) -> bool {
    &&& forall|i: int|
        0 <= i < ls.len() ==> has_prefix(#[trigger] ls[i], func_prefix()) && func_record(ls[i]) is Some
    &&& forall|i: int, j: int|
        0 <= i < ls.len() && 0 <= j < ls.len() && i != j ==> {
            let fi = func_record(#[trigger] ls[i])->0;
            let fj = func_record(#[trigger] ls[j])->0;
            fi.0 + fi.1 < fj.0 || fj.0 + fj.1 < fi.0
        }
}

proof fn lemma_functions_after_holds(ls: Seq<Seq<char>>, i: int)
    requires
        disjoint_function_lines(ls),
        0 <= i < ls.len(),
    ensures
        functions_after(ls).contains_key((func_record(ls[i])->0).0),
        functions_after(ls)[(func_record(ls[i])->0).0] == (
            (func_record(ls[i])->0).1,
            func_record(ls[i])->0,
        ),
    decreases ls.len(),
{
    let prev = ls.drop_last();
    if i < ls.len() - 1 {
        assert(disjoint_function_lines(prev)) by {
            assert forall|j: int| 0 <= j < prev.len() implies prev[j] == ls[j] by {}
        }
        assert(prev[i] == ls[i]);
        lemma_functions_after_holds(prev, i);
        assert(ls[i] == ls[i]);
        assert(ls[ls.len() - 1] == ls.last());
    }
}

/// Parsing well-formed function records and looking up the start address of
/// any one of them gives that function's name.
pub proof fn lemma_round_trip(f: &SymbolFile, ls: Seq<Seq<char>>, i: int)
    requires
        holds_records_of(f, ls),
        disjoint_function_lines(ls),
        0 <= i < ls.len(),
    ensures
        resolve(f, (func_record(ls[i])->0).0) matches Some((name, _, _)) && name == (func_record(
            ls[i],
        )->0).3,
{
    let rec = func_record(ls[i])->0;
    let a = rec.0;
    lemma_functions_after_holds(ls, i);
    assert(functions_view(f).contains_key(a));
    assert(f.functions@.contains_key(a));
    let e = f.functions@[a];
    assert(functions_view(f)[a] == (e.size, e.item@));
    assert(is_floor(f.functions@.dom(), a, a));
    let c = choose|c: u64| is_floor(f.functions@.dom(), a, c);
    lemma_floor_unique(f.functions@.dom(), a, a, c);
    assert(range_lookup(f.functions@, a) == Some(e.item));
}

} // verus!

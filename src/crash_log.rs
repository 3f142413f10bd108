use vstd::prelude::*;

use crate::number::{parse_u64, parse_u64_spec};
use crate::symbol::{lookup_address, resolve, SymbolFile};
use crate::text::{
    chars_of, copy_range, is_white_space, is_ws, same_chars, string_of, strs_view,
};

verus! {

/// The digits used to write numbers, up to base 16.
pub open spec fn digit_table() -> Seq<char> {
    seq!['0', '1', '2', '3', '4', '5', '6', '7', '8', '9', 'a', 'b', 'c', 'd', 'e', 'f']
}

/// `n` written in `radix` (at most 16) with lower-case digits, no leading zeros.
pub open spec fn digits_of(n: nat, radix: nat) -> Seq<char>
    decreases n
    via digits_of_decreases
{
    if radix < 2 || n < radix {
        seq![digit_table()[n as int]]
    } else {
        digits_of(n / radix, radix).push(digit_table()[(n % radix) as int])
    }
}

#[via_fn]
proof fn digits_of_decreases(n: nat, radix: nat) {
    if !(radix < 2 || n < radix) {
        assert(n / radix < n) by (nonlinear_arith)
            requires
                radix >= 2,
                n >= radix,
        ;
    }
}

/// `v` in decimal, with a leading `-` when negative.
pub open spec fn decimal_of(v: i64) -> Seq<char> {
    if v < 0 {
        seq!['-'] + digits_of((-v) as nat, 10)
    } else {
        digits_of(v as nat, 10)
    }
}

/// How a resolved address is shown: `<function> <file>:<line>`, with `??`
/// for an unknown file and `?` for an unknown line; or a not-found message
/// that names the address in hex.
pub open spec fn describe(r: Option<(Seq<char>, Seq<char>, i64)>, address: u64) -> Seq<char> {
    match r {
        Some((name, file, line)) => name + seq![' '] + (if file.len() != 0 {
            file
        } else {
            seq!['?', '?']
        }) + seq![':'] + (if line != -1 {
            decimal_of(line)
        } else {
            seq!['?']
        }),
        None => "Not found symbol for address(0x"@ + digits_of(address as nat, 16),
    }
}

fn push_digits(n: u64, radix: u64, table: &Vec<char>, out: &mut Vec<char>)
    requires
        2 <= radix <= 16,
        table@ == digit_table(),
    ensures
        final(out)@ == old(out)@ + digits_of(n as nat, radix as nat),
    decreases n,
{
    if n >= radix {
        assert(n / radix < n) by (nonlinear_arith)
            requires
                radix >= 2,
                n >= radix,
        ;
        push_digits(n / radix, radix, table, out);
    }
    out.push(table[(n % radix) as usize]);
    proof {
        if n >= radix {
            assert(final(out)@ =~= old(out)@ + digits_of(n as nat, radix as nat));
        } else {
            assert(n % radix == n) by (nonlinear_arith)
                requires
                    n < radix,
                    radix >= 2,
            ;
            assert(final(out)@ =~= old(out)@ + digits_of(n as nat, radix as nat));
        }
    }
}

fn digit_chars() -> (r: Vec<char>)
    ensures
        r@ == digit_table(),
{
    let r = vec!['0', '1', '2', '3', '4', '5', '6', '7', '8', '9', 'a', 'b', 'c', 'd', 'e', 'f'];
    assert(r@ =~= digit_table());
    r
}

fn append_chars(out: &mut Vec<char>, s: &[char])
    ensures
        final(out)@ == old(out)@ + s@,
{
    let mut i: usize = 0;
    while i < s.len()
        invariant
            i <= s@.len(),
            out@ == old(out)@ + s@.subrange(0, i as int),
        decreases s.len() - i,
    {
        out.push(s[i]);
        i += 1;
        assert(out@ =~= old(out)@ + s@.subrange(0, i as int));
    }
    assert(s@.subrange(0, s@.len() as int) =~= s@);
}

/// The description of what `address` resolves to in `symbol_file`.
pub fn get_symed_line(symbol_file: &SymbolFile, address: &u64) -> (r: String)
    requires
        symbol_file.wf(),
    ensures
        r@ == describe(resolve(symbol_file, *address), *address),
{
    let table = digit_chars();
    let mut out: Vec<char> = Vec::new();
    match lookup_address(symbol_file, *address) {
        Some(symbol) => {
            append_chars(&mut out, &chars_of(symbol.function_name.as_str()));
            out.push(' ');
            let file = chars_of(symbol.source_file_name.as_str());
            if file.len() != 0 {
                append_chars(&mut out, &file);
            } else {
                out.push('?');
                out.push('?');
            }
            out.push(':');
            let v = symbol.source_file_number;
            if v != -1 {
                if v < 0 {
                    out.push('-');
                    let m: u64 = ((-(v + 1)) as u64) + 1;
                    push_digits(m, 10, &table, &mut out);
                } else {
                    push_digits(v as u64, 10, &table, &mut out);
                }
            } else {
                out.push('?');
            }
            let ghost s = symbol@;
            assert(out@ =~= describe(Some(s), *address));
        },
        None => {
            let msg = chars_of("Not found symbol for address(0x");
            append_chars(&mut out, &msg);
            push_digits(*address, 16, &table, &mut out);
            assert(out@ =~= describe(None, *address));
        },
    }
    string_of(&out)
}

/// The character classes of a crash-report line: 0 decimal digits, 1 white
/// space, 2 module-name characters (`A-Z`, `a-z`, `.`), 3 lower-case hex digits.
pub open spec fn in_class(c: char, class: u8) -> bool {
    if class == 0 {
        '0' <= c && c <= '9'
    } else if class == 1 {
        is_ws(c)
    } else if class == 2 {
        ('a' <= c && c <= 'z') || ('A' <= c && c <= 'Z') || c == '.'
    } else {
        ('0' <= c && c <= '9') || ('a' <= c && c <= 'f')
    }
}

/// The end of the run of `class` characters of `s` that starts at `i`.
pub open spec fn run_end(s: Seq<char>, i: int, class: u8) -> int
    decreases s.len() - i,
{
    if 0 <= i < s.len() && in_class(s[i], class) {
        run_end(s, i + 1, class)
    } else {
        i
    }
}

/// `0x` stands in `s` at `i`.
pub open spec fn hex_mark_at(s: Seq<char>, i: int) -> bool {
    0 <= i && i + 2 <= s.len() && s[i] == '0' && s[i + 1] == 'x'
}

/// A crash-report frame line `<index> <module> 0x<address> 0x<base> + <offset>`,
/// each field read as far as its characters go: the start and end of the
/// module name and the start of the decimal offset, which runs to the end.
pub open spec fn crash_fields(s: Seq<char>) -> Option<(int, int, int)> {
    match frame_fields(s) {
        Some((b, c, o)) => if run_end(s, o, 0) == s.len() {
            Some((b, c, o))
        } else {
            None
        },
        None => None,
    }
}

/// The start of a frame line, up to the `+` and the white space after it:
/// the start and end of the module name and the start of the offset.
pub open spec fn frame_fields(s: Seq<char>) -> Option<(int, int, int)> {
    let a = run_end(s, 0, 0);
    let b = run_end(s, a, 1);
    let c = run_end(s, b, 2);
    let d = run_end(s, c, 1);
    let e = run_end(s, d + 2, 3);
    let f = run_end(s, e, 1);
    let g = run_end(s, f + 2, 3);
    if a > 0 && hex_mark_at(s, d) && hex_mark_at(s, f) && g + 3 <= s.len() && is_ws(s[g]) && s[g
        + 1] == '+' && is_ws(s[g + 2]) {
        Some((b, c, g + 3))
    } else {
        None
    }
}

/// `line` with the offset of a frame of `module` replaced by the description
/// of that offset; any other line as it is.
pub open spec fn rewrite(f: &SymbolFile, line: Seq<char>, module: Seq<char>) -> Seq<char> {
    match crash_fields(line) {
        Some((b, c, o)) => {
            let offset = parse_u64_spec(line.subrange(o, line.len() as int), 10);
            if line.subrange(b, c) == module && offset is Some {
                line.subrange(0, o) + describe(resolve(f, offset->0), offset->0)
            } else {
                line
            }
        },
        None => line,
    }
}

fn in_char_class(c: char, class: u8) -> (r: bool)
    ensures
        r == in_class(c, class),
{
    if class == 0 {
        '0' <= c && c <= '9'
    } else if class == 1 {
        is_white_space(c)
    } else if class == 2 {
        ('a' <= c && c <= 'z') || ('A' <= c && c <= 'Z') || c == '.'
    } else {
        ('0' <= c && c <= '9') || ('a' <= c && c <= 'f')
    }
}

fn skip_class(s: &[char], i: usize, class: u8) -> (r: usize)
    requires
        i <= s@.len(),
    ensures
        r == run_end(s@, i as int, class),
        i <= r <= s@.len(),
    decreases s@.len() - i,
{
    if i < s.len() && in_char_class(s[i], class) {
        skip_class(s, i + 1, class)
    } else {
        i
    }
}

fn hex_mark(s: &[char], i: usize) -> (r: bool)
    ensures
        r == hex_mark_at(s@, i as int),
{
    i < s.len() && s.len() - i >= 2 && s[i] == '0' && s[i + 1] == 'x'
}

/// The positions of the module name and of the offset in the start of a
/// frame line.
fn frame_line_fields(s: &[char]) -> (r: Option<(usize, usize, usize)>)
    ensures
        match r {
            Some((b, c, o)) => frame_fields(s@) == Some((b as int, c as int, o as int)) && b <= c
                <= o <= s@.len(),
            None => frame_fields(s@) is None,
        },
{
    let n = s.len();
    let a = skip_class(s, 0, 0);
    let b = skip_class(s, a, 1);
    let c = skip_class(s, b, 2);
    let d = skip_class(s, c, 1);
    if a == 0 || !hex_mark(s, d) {
        return None;
    }
    let e = skip_class(s, d + 2, 3);
    let f = skip_class(s, e, 1);
    if !hex_mark(s, f) {
        return None;
    }
    let g = skip_class(s, f + 2, 3);
    if s.len() - g < 3 {
        return None;
    }
    if !(is_white_space(s[g]) && s[g + 1] == '+' && is_white_space(s[g + 2])) {
        return None;
    }
    Some((b, c, g + 3))
}

/// The positions of the module name and of the offset in a frame line.
pub fn crash_line_fields(s: &[char]) -> (r: Option<(usize, usize, usize)>)
    ensures
        match r {
            Some((b, c, o)) => crash_fields(s@) == Some((b as int, c as int, o as int)) && b <= c
                <= o <= s@.len(),
            None => crash_fields(s@) is None,
        },
{
    match frame_line_fields(s) {
        Some((b, c, o)) => {
            if skip_class(s, o, 0) == s.len() {
                Some((b, c, o))
            } else {
                None
            }
        },
        None => None,
    }
}

/// The offset of a line that starts as a frame of `module`: the decimal
/// digits after the `+`, when there are some and they fit in 64 bits.
pub open spec fn frame_offset(line: Seq<char>, module: Seq<char>) -> Option<u64> {
    match frame_fields(line) {
        Some((b, c, o)) => if line.subrange(b, c) == module {
            parse_u64_spec(line.subrange(o, run_end(line, o, 0)), 10)
        } else {
            None
        },
        None => None,
    }
}

/// The offsets of the frames of `module` among `lines`, in order.
pub open spec fn frame_offsets(lines: Seq<Seq<char>>, module: Seq<char>) -> Seq<u64>
    decreases lines.len(),
{
    if lines.len() == 0 {
        Seq::empty()
    } else {
        let prev = frame_offsets(lines.drop_last(), module);
        match frame_offset(lines.last(), module) {
            Some(v) => prev.push(v),
            None => prev,
        }
    }
}

/// The offsets of the frames of `soname` in a crash report, in order.
pub fn get_ips_offsets(lines: &Vec<String>, soname: &str) -> (r: Vec<u64>)
    ensures
        r@ == frame_offsets(strs_view(lines@), soname@),
{
    let ghost ls = strs_view(lines@);
    let m = chars_of(soname);
    let mut offsets: Vec<u64> = Vec::new();
    let mut i: usize = 0;
    assert(ls.subrange(0, 0) =~= Seq::<Seq<char>>::empty());
    while i < lines.len()
        invariant
            ls == strs_view(lines@),
            m@ == soname@,
            i <= lines@.len(),
            offsets@ == frame_offsets(ls.subrange(0, i as int), soname@),
        decreases lines.len() - i,
    {
        let s = chars_of(lines[i].as_str());
        assert(ls[i as int] == lines@[i as int]@);
        assert(ls.subrange(0, i + 1).drop_last() =~= ls.subrange(0, i as int));
        if let Some((b, c, o)) = frame_line_fields(&s) {
            if same_chars(&copy_range(&s, b, c), &m) {
                let end = skip_class(&s, o, 0);
                if let Some(v) = parse_u64(&copy_range(&s, o, end), 10) {
                    offsets.push(v);
                }
            }
        }
        i += 1;
    }
    assert(ls.subrange(0, lines@.len() as int) =~= ls);
    offsets
}

/// Rewrites one crash-report line: in a frame of `module`, the decimal
/// offset is resolved in `symbol_file` and replaced by its description.
/// Lines of other shapes or modules, and offsets too large for 64 bits, are
/// kept as they are.
pub fn symbolicate_line(symbol_file: &SymbolFile, line: &str, module: &str) -> (r: String)
    requires
        symbol_file.wf(),
    ensures
        r@ == rewrite(symbol_file, line@, module@),
        crash_fields(line@) is None ==> r@ == line@,
        crash_fields(line@) matches Some((b, c, o)) && line@.subrange(b, c) != module@ ==> r@
            == line@,
{
    let s = chars_of(line);
    let m = chars_of(module);
    match crash_line_fields(&s) {
        Some((b, c, o)) => {
            let name = copy_range(&s, b, c);
            if !same_chars(&name, &m) {
                return line.to_owned();
            }
            let digits = copy_range(&s, o, s.len());
            match parse_u64(&digits, 10) {
                Some(offset) => {
                    let desc = get_symed_line(symbol_file, &offset);
                    let mut out = copy_range(&s, 0, o);
                    append_chars(&mut out, &chars_of(desc.as_str()));
                    string_of(&out)
                },
                None => line.to_owned(),
            }
        },
        None => line.to_owned(),
    }
}

} // verus!

use addr2line_breakpad::{
    get_ips_offsets, get_symed_line, lookup_address, parse_address, parse_breakpad_symbol_file, symbolicate_line,
    tokenize, tokenize_with_optional_field, Function, SymbolFile,
};

fn lines(text: &[&str]) -> Vec<String> {
    text.iter().map(|l| l.to_string()).collect()
}

fn table(text: &[&str]) -> SymbolFile {
    match parse_breakpad_symbol_file(&lines(text), false) {
        Ok(f) => f,
        Err(e) => panic!("malformed line {}", e.line_index),
    }
}

#[test]
fn test_tokenize() {
    let tokens = tokenize("c1d11c 0 bool UnityDefaultAllocator<LowLevelAllocator>::AllocationPage<(RequestType)0>(void const*) const", " ", 3);
    assert_eq!(tokens.len(), 3);
    assert_eq!(*tokens.get(0).unwrap(), "c1d11c");
    assert_eq!(*tokens.get(1).unwrap(), "0");
    assert_eq!(*tokens.get(2).unwrap(), "bool UnityDefaultAllocator<LowLevelAllocator>::AllocationPage<(RequestType)0>(void const*) const");

    let tokens = tokenize_with_optional_field("m c1d11c 0 bool UnityDefaultAllocator<LowLevelAllocator>::AllocationPage<(RequestType)0>(void const*) const", "m", " ", 4);
    assert_eq!(tokens.len(), 4);
    assert_eq!(*tokens.get(0).unwrap(), "m");
    assert_eq!(*tokens.get(1).unwrap(), "c1d11c");
    assert_eq!(*tokens.get(2).unwrap(), "0");
    assert_eq!(*tokens.get(3).unwrap(), "bool UnityDefaultAllocator<LowLevelAllocator>::AllocationPage<(RequestType)0>(void const*) const");
}

#[test]
fn test_find_function_by_address() {
    let mut symbol_file = SymbolFile::new();
    symbol_file.functions.insert(0, 2, Function { address: 0, size: 2, ..Default::default() }); // 0-2
    symbol_file.functions.insert(2, 1, Function { address: 2, size: 1, ..Default::default() }); // 2-3
    symbol_file.functions.insert(3, 1, Function { address: 3, size: 1, ..Default::default() }); // 3-4
    symbol_file.functions.insert(6, 1, Function { address: 6, size: 1, ..Default::default() }); // 6-7
    symbol_file.functions.insert(7, 1, Function { address: 7, size: 1, ..Default::default() }); // 7-8

    let result = symbol_file.functions.retrieve_range(3);
    assert_eq!(result.is_none(), false);
    let target = result.unwrap();
    assert_eq!(target.address, 3);

    let result = symbol_file.functions.retrieve_range(5);
    assert_eq!(result.is_none(), true);
}

#[test]
fn tokenize_fewer_fields_than_the_bound() {
    let tokens = tokenize("a b", " ", 4);
    assert_eq!(tokens, vec!["a".to_string(), "b".to_string()]);
    let tokens = tokenize("a b c d e", " ", 3);
    assert_eq!(tokens, vec!["a".to_string(), "b".to_string(), "c d e".to_string()]);
    assert!(tokenize("", " ", 3).is_empty());
    assert_eq!(tokenize("a", " ", 1), vec!["a".to_string()]);
}

#[test]
fn tokenize_flag_adds_one_field_only_when_present() {
    let without = tokenize_with_optional_field("1 2 3 long name", "m", " ", 4);
    assert_eq!(without, vec!["1".to_string(), "2".to_string(), "3 long name".to_string()]);
    let with = tokenize_with_optional_field("m 1 2 long name", "m", " ", 4);
    assert_eq!(with, vec!["m".to_string(), "1".to_string(), "2".to_string(), "long name".to_string()]);
}

#[test]
fn retrieve_before_first_and_between_ranges() {
    let mut symbol_file = SymbolFile::new();
    symbol_file.functions.insert(10, 5, Function { address: 10, size: 5, ..Default::default() });
    symbol_file.functions.insert(20, 5, Function { address: 20, size: 5, ..Default::default() });
    assert!(symbol_file.functions.retrieve_range(9).is_none());
    assert!(symbol_file.functions.retrieve_range(16).is_none());
    assert_eq!(symbol_file.functions.retrieve_range(15).unwrap().address, 10);
    assert_eq!(symbol_file.functions.retrieve_range(20).unwrap().address, 20);
    assert_eq!(symbol_file.functions.retrieve_range(25).unwrap().address, 20);
    assert!(symbol_file.functions.retrieve_range(26).is_none());
}

#[test]
fn resolver_function_without_line() {
    let f = table(&["FUNC 100 10 0 myFunc"]);
    let s = lookup_address(&f, 0x105).unwrap();
    assert_eq!(s.function_name, "myFunc");
    assert_eq!(s.source_file_name, "");
    assert_eq!(s.source_file_number, -1);
}

#[test]
fn resolver_function_and_line() {
    let f = table(&["FILE 1 foo.c", "FUNC 100 10 0 myFunc", "104 4 7 1"]);
    let s = lookup_address(&f, 0x106).unwrap();
    assert_eq!(s.function_name, "myFunc");
    assert_eq!(s.source_file_name, "foo.c");
    assert_eq!(s.source_file_number, 7);
}

#[test]
fn resolver_line_with_unknown_file() {
    let f = table(&["FUNC 100 10 0 myFunc", "104 4 7 9"]);
    let s = lookup_address(&f, 0x104).unwrap();
    assert_eq!(s.source_file_name, "");
    assert_eq!(s.source_file_number, 7);
}

#[test]
fn resolver_falls_back_to_public_symbol() {
    let f = table(&["FUNC 100 10 0 myFunc", "PUBLIC 200 0 pubSym"]);
    let s = lookup_address(&f, 0x5000).unwrap();
    assert_eq!(s.function_name, "pubSym");
    assert_eq!(s.source_file_name, "");
    assert_eq!(s.source_file_number, -1);
    let s = lookup_address(&f, 0x110).unwrap();
    assert_eq!(s.function_name, "myFunc");
    assert!(lookup_address(&f, 0x50).is_none());
}

#[test]
fn function_takes_priority_over_closer_public_symbol() {
    let f = table(&["FUNC 100 20 0 myFunc", "PUBLIC 108 0 nearby"]);
    assert_eq!(lookup_address(&f, 0x10a).unwrap().function_name, "myFunc");
}

#[test]
fn round_trip_synthetic_functions() {
    let mut text = Vec::new();
    for i in 0..50u64 {
        text.push(format!("FUNC {:x} {:x} 0 func_{} (int, char)", 0x1000 + i * 0x40, 0x20, i));
    }
    let f = parse_breakpad_symbol_file(&text, false).ok().unwrap();
    for i in 0..50u64 {
        let s = lookup_address(&f, 0x1000 + i * 0x40).unwrap();
        assert_eq!(s.function_name, format!("func_{} (int, char)", i));
    }
}

#[test]
fn crash_line_not_matching_is_kept() {
    let f = table(&["FUNC 100 10 0 myFunc"]);
    let plain = "Thread 0 Crashed:: Dispatch queue: com.apple.main-thread";
    assert_eq!(symbolicate_line(&f, plain, "UnityFramework"), plain);
    let other = "3   libsystem.dylib  0x00000001a2b3c4d5 0x1a2b00000 + 256";
    assert_eq!(symbolicate_line(&f, other, "UnityFramework"), other);
    let no_offset = "3 UnityFramework 0x0000000104d1c2e4 0x104b24000 + ";
    assert_eq!(symbolicate_line(&f, no_offset, "UnityFramework"), no_offset);
}

#[test]
fn crash_line_of_target_module_is_rewritten() {
    let f = table(&["FILE 1 foo.c", "FUNC 100 10 0 myFunc", "100 8 42 1"]);
    let line = "12 UnityFramework 0x0000000104d1c2e4 0x104b24000 + 258";
    assert_eq!(
        symbolicate_line(&f, line, "UnityFramework"),
        "12 UnityFramework 0x0000000104d1c2e4 0x104b24000 + myFunc foo.c:42"
    );
    let missing = "12 UnityFramework 0x0000000104d1c2e4 0x104b24000 + 16";
    assert_eq!(
        symbolicate_line(&f, missing, "UnityFramework"),
        "12 UnityFramework 0x0000000104d1c2e4 0x104b24000 + Not found symbol for address(0x10"
    );
}

#[test]
fn end_to_end_absolute_line_addresses() {
    let f = table(&["MODULE mac x86_64 ABC123 foo", "FILE 1 foo.c", "FUNC 100 10 0 myFunc", "1a 2 5 1"]);
    let s = lookup_address(&f, 0x101).unwrap();
    assert_eq!(s.function_name, "myFunc");
    assert_eq!(s.source_file_name, "");
    assert_eq!(s.source_file_number, -1);
    let f = table(&["FILE 1 foo.c", "FUNC 100 10 0 myFunc", "101 2 5 1"]);
    let s = lookup_address(&f, 0x101).unwrap();
    assert_eq!(s.function_name, "myFunc");
    assert_eq!(s.source_file_name, "foo.c");
    assert_eq!(s.source_file_number, 5);
}

#[test]
fn symed_line_formats() {
    let f = table(&["FILE 1 foo.c", "FUNC 100 10 0 myFunc", "100 2 5 1", "104 2 -3 2"]);
    assert_eq!(get_symed_line(&f, &0x100), "myFunc foo.c:5");
    assert_eq!(get_symed_line(&f, &0x104), "myFunc ??:-3");
    assert_eq!(get_symed_line(&f, &0x108), "myFunc ??:?");
    assert_eq!(get_symed_line(&f, &0x1f), "Not found symbol for address(0x1f");
    assert_eq!(get_symed_line(&f, &0), "Not found symbol for address(0x0");
}

#[test]
fn multiple_marker_records() {
    let f = table(&["FUNC m 100 10 4 dup(int, int)", "PUBLIC m 300 8 dupPublic"]);
    let s = lookup_address(&f, 0x100).unwrap();
    assert_eq!(s.function_name, "dup(int, int)");
    let s = lookup_address(&f, 0x400).unwrap();
    assert_eq!(s.function_name, "dupPublic");
}

#[test]
fn crlf_and_ignored_lines() {
    let f = table(&[
        "MODULE Linux x86_64 000 libfoo.so\r",
        "INFO CODE_ID 1234\r",
        "FILE 1 a.c\r",
        "FUNC 10 4 0 f\r",
        "10 4 3 1\r",
        "STACK CFI 10 .cfa: $rsp 8 +\r",
        "\r",
        "",
    ]);
    let s = lookup_address(&f, 0x12).unwrap();
    assert_eq!(s.function_name, "f");
    assert_eq!(s.source_file_name, "a.c");
    assert_eq!(s.source_file_number, 3);
}

#[test]
fn malformed_line_is_an_error_or_skipped() {
    let text = lines(&["FUNC 100 10 0 ok", "FUNC zz 10 0 bad", "PUBLIC 1"]);
    let e = parse_breakpad_symbol_file(&text, false).err().unwrap();
    assert_eq!(e.line_index, 1);
    let f = parse_breakpad_symbol_file(&text, true).ok().unwrap();
    assert_eq!(lookup_address(&f, 0x100).unwrap().function_name, "ok");
    let e = parse_breakpad_symbol_file(&lines(&["1 2 3"]), false).err().unwrap();
    assert_eq!(e.line_index, 0);
    let e = parse_breakpad_symbol_file(&lines(&["FILE x a.c"]), false).err().unwrap();
    assert_eq!(e.line_index, 0);
}

#[test]
fn numbers_in_records() {
    let e = parse_breakpad_symbol_file(&lines(&["FUNC 10000000000000000 1 0 big"]), false);
    assert!(e.is_err());
    let f = table(&["FUNC ffffffffffffff00 ff 0 top"]);
    assert_eq!(lookup_address(&f, u64::MAX).unwrap().function_name, "top");
}

#[test]
fn parse_address_forms() {
    assert_eq!(parse_address("0x1a"), Some(26));
    assert_eq!(parse_address("1A"), Some(26));
    assert_eq!(parse_address("ffffffffffffffff"), Some(u64::MAX));
    assert_eq!(parse_address("10000000000000000"), None);
    assert_eq!(parse_address("0x"), None);
    assert_eq!(parse_address("zz"), None);
}

#[test]
fn ips_offsets_of_one_module() {
    let report = lines(&[
        "Thread 0 Crashed:",
        "0   UnityFramework  0x0000000104d1c2e4 0x104b24000 + 2065124",
        "1   libsystem.dylib 0x00000001a2b3c4d5 0x1a2b00000 + 256",
        "2   UnityFramework  0x0000000104d1c2e4 0x104b24000 + 77 trailing",
        "3   UnityFramework  0x0000000104d1c2e4 0x104b24000 + ",
    ]);
    assert_eq!(get_ips_offsets(&report, "UnityFramework"), vec![2065124, 77]);
    assert!(get_ips_offsets(&report, "Other").is_empty());
}

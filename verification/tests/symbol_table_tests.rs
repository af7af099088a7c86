use binarytools::symbol_table::{
    parse_symbol_table_entry, symbol_type_of_selector, ErrorKind, ParseError, SymbolConstructor, SymbolDebugging,
    SymbolReference, SymbolScope, SymbolTable, SymbolTableEntry, SymbolTableFlags, SymbolType,
    SymbolWarning, SymbolWeakness,
};

fn listing() -> Vec<String> {
    vec![
        "".to_string(),
        "firmware.elf:     file format elf32-littlearm".to_string(),
        "SYMBOL TABLE:".to_string(),
        "08020000 l    d  .vectors\t00000000 .vectors".to_string(),
        "00000000 l    df *ABS*\t00000000 startup.c".to_string(),
        "0803f76a  w    F .text\t00000002 __printf_unlock".to_string(),
        "not a symbol".to_string(),
        "20000010 g     O .data\t00000040 lookup table".to_string(),
        "08021000 g     F .text\t00000120 main".to_string(),
        "20000400 g     O .bss\t00000040 rx_buffer".to_string(),
        "08020000 l    d  .vectors 00000000 .vectors".to_string(),
        "20000050 l     O .data\t00000001 flag".to_string(),
    ]
}

fn names(table: &SymbolTable) -> Vec<String> {
    table.entries().iter().map(|e| e.name.clone()).collect()
}

fn plain_flags() -> SymbolTableFlags {
    SymbolTableFlags {
        scope: SymbolScope::Neither,
        weakness: SymbolWeakness::Strong,
        constructor: SymbolConstructor::Regular,
        warning: SymbolWarning::Regular,
        reference: SymbolReference::Regular,
        debugging: SymbolDebugging::Regular,
        symbol_type: SymbolType::Regular,
    }
}

fn entry(name: &str, size: u32) -> SymbolTableEntry {
    SymbolTableEntry {
        address: 0,
        flags: plain_flags(),
        section: ".text".to_string(),
        alignment_or_size: size,
        name: name.to_string(),
    }
}

#[test]
fn test_from_lines_keeps_matching_lines_in_order() {
    let table = SymbolTable::from_lines(&listing());
    assert_eq!(table.len(), 7);
    assert_eq!(
        names(&table),
        vec![
            ".vectors",
            "startup.c",
            "__printf_unlock",
            "lookup table",
            "main",
            "rx_buffer",
            "flag"
        ]
    );
}

#[test]
fn test_from_lines_counts_exactly_the_matching_lines() {
    let lines = listing();
    let matching = lines
        .iter()
        .filter(|l| parse_symbol_table_entry(l).is_ok())
        .count();
    assert_eq!(matching, 7);
    assert_eq!(SymbolTable::from_lines(&lines).len(), matching);
}

#[test]
fn test_from_lines_twice_gives_the_same_table() {
    let lines = listing();
    assert_eq!(SymbolTable::from_lines(&lines), SymbolTable::from_lines(&lines));
}

#[test]
fn test_from_lines_of_nothing_is_empty() {
    let table = SymbolTable::from_lines(&Vec::new());
    assert_eq!(table.len(), 0);
    assert!(table.is_empty());
    assert_eq!(SymbolTable::new().len(), 0);
}

#[test]
fn test_from_lines_without_a_matching_line_is_empty() {
    let lines = vec!["SYMBOL TABLE:".to_string(), "".to_string()];
    assert!(SymbolTable::from_lines(&lines).is_empty());
}

#[test]
fn test_bad_line_between_good_lines_is_dropped() {
    let with_bad = vec![
        "08021000 g     F .text\t00000120 main".to_string(),
        "08021000 g     X .text\t00000120 main".to_string(),
        "20000400 g     O .bss\t00000040 rx_buffer".to_string(),
    ];
    let without = vec![with_bad[0].clone(), with_bad[2].clone()];
    assert_eq!(
        SymbolTable::from_lines(&with_bad),
        SymbolTable::from_lines(&without)
    );
}

#[test]
fn test_entry_fields_of_a_loaded_table() {
    let table = SymbolTable::from_lines(&listing());
    let e = table.get(3).unwrap();
    assert_eq!(e.address, 0x20000010);
    assert_eq!(e.section, ".data");
    assert_eq!(e.alignment_or_size, 0x40);
    assert_eq!(e.name, "lookup table");
    assert_eq!(e.flags.scope, SymbolScope::Global);
    assert_eq!(e.flags.symbol_type, SymbolType::Object);
    let file = table.get(1).unwrap();
    assert_eq!(file.section, "*ABS*");
    assert_eq!(file.flags.debugging, SymbolDebugging::Debug);
    assert_eq!(file.flags.symbol_type, SymbolType::File);
}

#[test]
fn test_error_missing_address() {
    assert_eq!(
        parse_symbol_table_entry("SYMBOL TABLE:"),
        Err(ParseError {
            input: "SYMBOL TABLE:",
            code: ErrorKind::OneOf,
            expected: "0123456789abcdefABCDEF"
        })
    );
    assert_eq!(
        parse_symbol_table_entry(""),
        Err(ParseError {
            input: "",
            code: ErrorKind::OneOf,
            expected: "0123456789abcdefABCDEF"
        })
    );
}

#[test]
fn test_error_missing_separator() {
    assert_eq!(
        parse_symbol_table_entry("08020000\tl    d  .vectors\t00000000 .vectors"),
        Err(ParseError {
            input: "\tl    d  .vectors\t00000000 .vectors",
            code: ErrorKind::OneOf,
            expected: " "
        })
    );
    assert_eq!(
        parse_symbol_table_entry("08020000"),
        Err(ParseError {
            input: "",
            code: ErrorKind::OneOf,
            expected: " "
        })
    );
}

#[test]
fn test_error_in_each_flag_column() {
    let cases = [
        ("0 x      .t\t0 n", "x      .t\t0 n", "lg !"),
        ("0  x     .t\t0 n", "x     .t\t0 n", "w "),
        ("0   x    .t\t0 n", "x    .t\t0 n", "C "),
        ("0    x   .t\t0 n", "x   .t\t0 n", "W "),
        ("0     x  .t\t0 n", "x  .t\t0 n", "l "),
        ("0      x .t\t0 n", "x .t\t0 n", "dD "),
        ("0       x.t\t0 n", "x.t\t0 n", "FfO "),
    ];
    for (line, rest, alphabet) in cases {
        assert_eq!(
            parse_symbol_table_entry(line),
            Err(ParseError {
                input: rest,
                code: ErrorKind::OneOf,
                expected: alphabet
            })
        );
    }
}

#[test]
fn test_error_line_ends_inside_flags() {
    assert_eq!(
        parse_symbol_table_entry("0 l  "),
        Err(ParseError {
            input: "",
            code: ErrorKind::OneOf,
            expected: "W "
        })
    );
}

#[test]
fn test_error_no_tab_behind_section() {
    assert_eq!(
        parse_symbol_table_entry("08020000 l    d  .vectors 00000000 .vectors"),
        Err(ParseError {
            input: ".vectors 00000000 .vectors",
            code: ErrorKind::TakeUntil,
            expected: "\t"
        })
    );
}

#[test]
fn test_error_missing_size() {
    assert_eq!(
        parse_symbol_table_entry("08020000 l    d  .vectors\tsize .vectors"),
        Err(ParseError {
            input: "size .vectors",
            code: ErrorKind::OneOf,
            expected: "0123456789abcdefABCDEF"
        })
    );
}

#[test]
fn test_error_missing_name() {
    assert_eq!(
        parse_symbol_table_entry("08020000 l    d  .vectors\t00000000"),
        Err(ParseError {
            input: "",
            code: ErrorKind::Eof,
            expected: ""
        })
    );
    assert_eq!(
        parse_symbol_table_entry("08020000 l    d  .vectors\t00000000 \t "),
        Err(ParseError {
            input: "",
            code: ErrorKind::Eof,
            expected: ""
        })
    );
}

#[test]
fn test_error_number_too_large() {
    assert_eq!(
        parse_symbol_table_entry("100000000 l    d  .vectors\t00000000 .vectors"),
        Err(ParseError {
            input: "100000000 l    d  .vectors\t00000000 .vectors",
            code: ErrorKind::TooLarge,
            expected: "0123456789abcdefABCDEF"
        })
    );
    assert_eq!(
        parse_symbol_table_entry("0 l    d  .vectors\tfffffffff .vectors"),
        Err(ParseError {
            input: "fffffffff .vectors",
            code: ErrorKind::TooLarge,
            expected: "0123456789abcdefABCDEF"
        })
    );
}

#[test]
fn test_numbers_of_any_length_that_fit() {
    let (_, e) = parse_symbol_table_entry("000000000FFFFFFFF        .t\tA x").unwrap();
    assert_eq!(e.address, u32::MAX);
    assert_eq!(e.alignment_or_size, 10);
    let (_, e) = parse_symbol_table_entry("f        .t\t00000000000000000001 x").unwrap();
    assert_eq!(e.address, 15);
    assert_eq!(e.alignment_or_size, 1);
}

#[test]
fn test_padding_between_fields() {
    let (rest, e) =
        parse_symbol_table_entry("1a g     F \t \r\n.text and more\t \t2b \t the name ").unwrap();
    assert_eq!(rest, "");
    assert_eq!(e.address, 0x1a);
    assert_eq!(e.section, ".text and more");
    assert_eq!(e.alignment_or_size, 0x2b);
    assert_eq!(e.name, "the name ");
}

#[test]
fn test_size_takes_every_hex_digit_that_follows() {
    let failed = parse_symbol_table_entry("0        .t\t12abc");
    assert_eq!(
        failed,
        Err(ParseError {
            input: "",
            code: ErrorKind::Eof,
            expected: ""
        })
    );
    let (_, e) = parse_symbol_table_entry("0        .t\t12abx").unwrap();
    assert_eq!(e.alignment_or_size, 0x12ab);
    assert_eq!(e.name, "x");
    let (_, e) = parse_symbol_table_entry("0        .t\t12 abc").unwrap();
    assert_eq!(e.alignment_or_size, 0x12);
    assert_eq!(e.name, "abc");
}

#[test]
fn test_names_outside_ascii() {
    let (_, e) = parse_symbol_table_entry("10 g     O .données\t4 größe µ").unwrap();
    assert_eq!(e.section, ".données");
    assert_eq!(e.name, "größe µ");
    let err = parse_symbol_table_entry("10 g     O .données 4 größe").unwrap_err();
    assert_eq!(err.input, ".données 4 größe");
    assert_eq!(err.code, ErrorKind::TakeUntil);
}

#[test]
fn test_sort_by_size_ascending() {
    let mut table = SymbolTable::from_lines(&listing());
    table.sort_by_size_ascending();
    let sizes: Vec<u32> = table.entries().iter().map(|e| e.alignment_or_size).collect();
    assert_eq!(sizes, vec![0, 0, 1, 2, 0x40, 0x40, 0x120]);
    assert_eq!(
        names(&table),
        vec![
            ".vectors",
            "startup.c",
            "flag",
            "__printf_unlock",
            "lookup table",
            "rx_buffer",
            "main"
        ]
    );
}

#[test]
fn test_sort_by_size_descending() {
    let mut table = SymbolTable::from_lines(&listing());
    table.sort_by_size_descending();
    let sizes: Vec<u32> = table.entries().iter().map(|e| e.alignment_or_size).collect();
    assert_eq!(sizes, vec![0x120, 0x40, 0x40, 2, 1, 0, 0]);
    assert_eq!(
        names(&table),
        vec![
            "main",
            "lookup table",
            "rx_buffer",
            "__printf_unlock",
            "flag",
            ".vectors",
            "startup.c"
        ]
    );
}

#[test]
fn test_sorts_are_reverses_without_ties() {
    let sizes = [7u32, 3, 900, 0, 12, 5, 1, u32::MAX, 64, 2];
    let entries = |_: ()| -> Vec<SymbolTableEntry> {
        sizes.iter().map(|s| entry(&format!("s{}", s), *s)).collect()
    };
    let mut ascending = SymbolTable::from_entries(entries(()));
    ascending.sort_by_size_ascending();
    let mut descending = SymbolTable::from_entries(entries(()));
    descending.sort_by_size_descending();
    let mut expected = descending.into_entries();
    expected.reverse();
    assert_eq!(ascending.entries(), &expected);

    let mut again = SymbolTable::from_entries(entries(()));
    again.sort_by_size_ascending();
    again.sort_by_size_descending();
    again.sort_by_size_ascending();
    assert_eq!(again, ascending);
    assert_eq!(
        ascending.entries().iter().map(|e| e.alignment_or_size).collect::<Vec<u32>>(),
        vec![0, 1, 2, 3, 5, 7, 12, 64, 900, u32::MAX]
    );
}

#[test]
fn test_sort_is_stable_on_many_ties() {
    let mut entries = Vec::new();
    for i in 0..200u32 {
        entries.push(entry(&format!("n{}", i), (i * 7) % 5));
    }
    let mut expected_up: Vec<SymbolTableEntry> = Vec::new();
    for size in 0..5u32 {
        for i in 0..200u32 {
            if (i * 7) % 5 == size {
                expected_up.push(entry(&format!("n{}", i), size));
            }
        }
    }
    let mut expected_down: Vec<SymbolTableEntry> = Vec::new();
    for size in (0..5u32).rev() {
        for i in 0..200u32 {
            if (i * 7) % 5 == size {
                expected_down.push(entry(&format!("n{}", i), size));
            }
        }
    }
    let mut up = SymbolTable::from_entries(entries);
    up.sort_by_size_ascending();
    assert_eq!(up.entries(), &expected_up);
    up.sort_by_size_descending();
    assert_eq!(up.entries(), &expected_down);
}

#[test]
fn test_sort_of_small_tables() {
    let mut empty = SymbolTable::new();
    empty.sort_by_size_ascending();
    assert!(empty.is_empty());
    let mut one = SymbolTable::from_entries(vec![entry("a", 3)]);
    one.sort_by_size_descending();
    assert_eq!(one.entries(), &vec![entry("a", 3)]);
}

#[test]
fn test_filter_by_type() {
    let objects = SymbolTable::from_lines(&listing()).filter_by_type(SymbolType::Object);
    assert_eq!(names(&objects), vec!["lookup table", "rx_buffer", "flag"]);
    let functions = SymbolTable::from_lines(&listing()).filter_by_type(SymbolType::Function);
    assert_eq!(names(&functions), vec!["__printf_unlock", "main"]);
    let files = SymbolTable::from_lines(&listing()).filter_by_type(SymbolType::File);
    assert_eq!(names(&files), vec!["startup.c"]);
    let others = SymbolTable::from_lines(&listing()).filter_by_type(SymbolType::Regular);
    assert_eq!(names(&others), vec![".vectors"]);
}

#[test]
fn test_filter_without_a_match_is_empty() {
    let lines = vec!["08021000 g     F .text\t00000120 main".to_string()];
    let objects = SymbolTable::from_lines(&lines).filter_by_type(SymbolType::Object);
    assert_eq!(objects.len(), 0);
    let nowhere = SymbolTable::from_lines(&lines).filter_by_section(".rodata");
    assert_eq!(nowhere.len(), 0);
    assert!(SymbolTable::new().filter_by_type(SymbolType::File).is_empty());
}

#[test]
fn test_filter_by_section() {
    let data = SymbolTable::from_lines(&listing()).filter_by_section(".data");
    assert_eq!(names(&data), vec!["lookup table", "flag"]);
    let text = SymbolTable::from_lines(&listing()).filter_by_section(".text");
    assert_eq!(names(&text), vec!["__printf_unlock", "main"]);
    let prefix = SymbolTable::from_lines(&listing()).filter_by_section(".dat");
    assert!(prefix.is_empty());
}

#[test]
fn test_select() {
    let all = || SymbolTable::from_lines(&listing());
    assert_eq!(
        names(&all().select(Some("objects"), None)),
        vec!["lookup table", "rx_buffer", "flag"]
    );
    assert_eq!(names(&all().select(Some("functions"), None)), vec!["__printf_unlock", "main"]);
    assert_eq!(names(&all().select(Some("files"), None)), vec!["startup.c"]);
    assert_eq!(
        names(&all().select(Some("functions"), Some(".data"))),
        vec!["__printf_unlock", "main"]
    );
    assert_eq!(names(&all().select(None, Some(".bss"))), vec!["rx_buffer"]);
    assert_eq!(names(&all().select(Some("Objects"), Some(".bss"))), vec!["rx_buffer"]);
    assert_eq!(all().select(Some("everything"), None), all());
    assert_eq!(all().select(None, None), all());
}

#[test]
fn test_filter_then_sort_and_sort_then_filter() {
    let mut first = SymbolTable::from_lines(&listing()).filter_by_type(SymbolType::Object);
    first.sort_by_size_descending();
    let mut sorted = SymbolTable::from_lines(&listing());
    sorted.sort_by_size_descending();
    let second = sorted.filter_by_type(SymbolType::Object);
    assert_eq!(first, second);
    assert_eq!(names(&first), vec!["lookup table", "rx_buffer", "flag"]);
}

#[test]
fn test_push_and_get() {
    let mut table = SymbolTable::new();
    table.push(entry("a", 1));
    table.push(entry("b", 0));
    assert_eq!(table.len(), 2);
    assert_eq!(table.get(0), Some(&entry("a", 1)));
    assert_eq!(table.get(1), Some(&entry("b", 0)));
    assert_eq!(table.get(2), None);
    assert_eq!(table.into_entries(), vec![entry("a", 1), entry("b", 0)]);
}

#[test]
fn test_duplicate_symbols_are_kept() {
    let line = "0803f76a  w    F .text\t00000002 __printf_unlock".to_string();
    let table = SymbolTable::from_lines(&vec![line.clone(), line.clone(), line]);
    assert_eq!(table.len(), 3);
    assert_eq!(table.get(0), table.get(2));
}

#[test]
fn test_offending_character() {
    let bad = parse_symbol_table_entry("08021000 g     X .text\t00000120 main").unwrap_err();
    assert_eq!(bad.offending(), Some('X'));
    assert_eq!(bad.expected, "FfO ");
    let short = parse_symbol_table_entry("08021000 g  ").unwrap_err();
    assert_eq!(short.offending(), None);
    let wide = parse_symbol_table_entry("µ").unwrap_err();
    assert_eq!(wide.offending(), Some('µ'));
}

#[test]
fn test_symbol_type_of_selector() {
    assert_eq!(symbol_type_of_selector("objects"), Some(SymbolType::Object));
    assert_eq!(symbol_type_of_selector("functions"), Some(SymbolType::Function));
    assert_eq!(symbol_type_of_selector("files"), Some(SymbolType::File));
    assert_eq!(symbol_type_of_selector("object"), None);
    assert_eq!(symbol_type_of_selector("objects "), None);
    assert_eq!(symbol_type_of_selector("FILES"), None);
    assert_eq!(symbol_type_of_selector(""), None);
}

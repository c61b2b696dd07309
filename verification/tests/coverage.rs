//! Which parts of a firmware ran.
use virtmcu::coverage::{
    calculate_coverage, coverage_report, get_elf_symbols, high_image_base, merge_intervals,
    parse_drcov, select_functions, sizes_fit, DrcovError, Interval, RawSymbol, SymbolInfo,
    FALLBACK_SIZE,
};

fn span(start: u64, end: u64) -> Interval {
    Interval { start, end }
}

fn symbol(name: &str, address: u64, size: u64) -> RawSymbol {
    RawSymbol {
        name: Some(name.to_string()),
        address,
        size,
        is_text: true,
        is_unknown: false,
        in_text_section: Some(true),
    }
}

fn table(count: &str, blocks: &[(u32, u16)]) -> Vec<u8> {
    let mut content = b"DRCOV VERSION: 2\nBB Table: ".to_vec();
    content.extend_from_slice(count.as_bytes());
    content.extend_from_slice(b" bbs\n");
    for (start, size) in blocks {
        content.extend_from_slice(&start.to_le_bytes());
        content.extend_from_slice(&size.to_le_bytes());
        content.extend_from_slice(&[0, 0]);
    }
    content
}

#[test]
fn blocks_are_listed() {
    assert_eq!(
        parse_drcov(&table("2", &[(16, 4), (32, 8)])),
        Ok(vec![span(16, 20), span(32, 40)])
    );
    assert_eq!(parse_drcov(&table("9", &[(16, 4)])), Ok(vec![span(16, 20)]));
}

#[test]
fn broken_tables_are_refused() {
    assert_eq!(parse_drcov(b"nothing"), Err(DrcovError::NoBbTable));
    assert_eq!(parse_drcov(b"BB Table: 3"), Err(DrcovError::MissingNewline));
    assert_eq!(parse_drcov(b"BB Table: \xff\n"), Err(DrcovError::InvalidText));
    assert_eq!(parse_drcov(b"BB Table:  \n"), Err(DrcovError::NoCount));
    assert_eq!(parse_drcov(b"BB Table: many\n"), Err(DrcovError::InvalidCount));
}

#[test]
fn merging_keeps_coverage() {
    let merged = merge_intervals(vec![span(30, 40), span(0, 10), span(10, 12), span(5, 8)]);
    assert_eq!(merged, vec![span(0, 12), span(30, 40)]);
    assert_eq!(merge_intervals(vec![]), vec![]);
}

#[test]
fn coverage_adds_up() {
    let ran = [span(0, 10), span(20, 30), span(40, 50)];
    assert_eq!(calculate_coverage(5, 45, &ran), 5 + 10 + 5);
    assert_eq!(calculate_coverage(5, 25, &ran) + calculate_coverage(25, 45, &ran), 20);
    assert_eq!(calculate_coverage(10, 20, &ran), 0);
}

#[test]
fn coverage_of_touching_intervals() {
    let ran = [span(0, 10), span(10, 20), span(20, 20), span(20, 25)];
    assert_eq!(calculate_coverage(0, 30, &ran), 25);
    assert_eq!(calculate_coverage(10, 20, &ran), 10);
    assert_eq!(calculate_coverage(9, 11, &ran), 2);
}

#[test]
fn functions_are_chosen_and_sized() {
    let mut data = symbol("table", 8, 4);
    data.is_text = false;
    let mut elsewhere = symbol("data", 12, 4);
    elsewhere.in_text_section = Some(false);
    let mut nameless = symbol("", 16, 4);
    nameless.name = None;
    let chosen = select_functions(vec![
        symbol("late", 200, 0),
        symbol("early", 100, 0),
        symbol("$t", 100, 2),
        symbol("zero", 0, 2),
        data,
        elsewhere,
        nameless,
    ]);
    assert_eq!(
        chosen,
        vec![
            SymbolInfo { name: "early".to_string(), address: 100, size: 100 },
            SymbolInfo { name: "late".to_string(), address: 200, size: FALLBACK_SIZE },
        ]
    );
}

#[test]
fn report_counts_each_function() {
    let symbols = vec![
        SymbolInfo { name: "a".to_string(), address: 0, size: 10 },
        SymbolInfo { name: "b".to_string(), address: 10, size: 10 },
    ];
    assert!(sizes_fit(&symbols));
    let report = coverage_report(&symbols, &[span(5, 12)]);
    assert_eq!(report.functions[0].executed, 5);
    assert_eq!(report.functions[1].executed, 2);
    assert_eq!((report.total_size, report.total_executed), (20, 7));
    let huge = vec![SymbolInfo { name: "c".to_string(), address: u64::MAX, size: 2 }];
    assert!(!sizes_fit(&huge));
}

fn put(out: &mut Vec<u8>, bytes: &[u8]) {
    out.extend_from_slice(bytes);
}

fn section(out: &mut Vec<u8>, name: u32, kind: u32, flags: u64, addr: u64, at: u64, size: u64, link: u32, info: u32, entry: u64) {
    put(out, &name.to_le_bytes());
    put(out, &kind.to_le_bytes());
    put(out, &flags.to_le_bytes());
    put(out, &addr.to_le_bytes());
    put(out, &at.to_le_bytes());
    put(out, &size.to_le_bytes());
    put(out, &link.to_le_bytes());
    put(out, &info.to_le_bytes());
    put(out, &1u64.to_le_bytes());
    put(out, &entry.to_le_bytes());
}

/// A file with a section of code, at 0x1000, and two functions in it.
fn small_elf() -> Vec<u8> {
    let names = b"\0.text\0.symtab\0.strtab\0.shstrtab\0";
    let strings = b"\0main\0helper\0";
    let mut symbols: Vec<u8> = vec![0; 24];
    for (name, value, size) in [(6u32, 0x1010u64, 0u64), (1, 0x1000, 16)] {
        put(&mut symbols, &name.to_le_bytes());
        put(&mut symbols, &[0x12, 0]);
        put(&mut symbols, &1u16.to_le_bytes());
        put(&mut symbols, &value.to_le_bytes());
        put(&mut symbols, &size.to_le_bytes());
    }
    let text_at = 64u64;
    let symbols_at = text_at + 32;
    let strings_at = symbols_at + symbols.len() as u64;
    let names_at = strings_at + strings.len() as u64;
    let sections_at = names_at + names.len() as u64;
    let mut out: Vec<u8> = vec![0x7f, b'E', b'L', b'F', 2, 1, 1, 0, 0, 0, 0, 0, 0, 0, 0, 0];
    put(&mut out, &2u16.to_le_bytes());
    put(&mut out, &183u16.to_le_bytes());
    put(&mut out, &1u32.to_le_bytes());
    put(&mut out, &0x1000u64.to_le_bytes());
    put(&mut out, &0u64.to_le_bytes());
    put(&mut out, &sections_at.to_le_bytes());
    put(&mut out, &0u32.to_le_bytes());
    put(&mut out, &64u16.to_le_bytes());
    put(&mut out, &0u16.to_le_bytes());
    put(&mut out, &0u16.to_le_bytes());
    put(&mut out, &64u16.to_le_bytes());
    put(&mut out, &5u16.to_le_bytes());
    put(&mut out, &4u16.to_le_bytes());
    out.resize(96, 0);
    put(&mut out, &symbols);
    put(&mut out, strings);
    put(&mut out, names);
    section(&mut out, 0, 0, 0, 0, 0, 0, 0, 0, 0);
    section(&mut out, 1, 1, 6, 0x1000, text_at, 32, 0, 0, 0);
    section(&mut out, 7, 2, 0, 0, symbols_at, symbols.len() as u64, 3, 1, 24);
    section(&mut out, 15, 3, 0, 0, strings_at, strings.len() as u64, 0, 0, 0);
    section(&mut out, 23, 3, 0, 0, names_at, names.len() as u64, 0, 0, 0);
    out
}

#[test]
fn symbols_of_a_file_are_read() {
    assert_eq!(
        get_elf_symbols(&small_elf()),
        Some(vec![
            SymbolInfo { name: "main".to_string(), address: 0x1000, size: 16 },
            SymbolInfo { name: "helper".to_string(), address: 0x1010, size: FALLBACK_SIZE },
        ])
    );
    assert_eq!(get_elf_symbols(b"no object file"), None);
}

fn small_image(base: u64) -> Vec<u8> {
    let mut out = vec![0u8; 64];
    out[0] = b'M';
    out[1] = b'Z';
    out[60] = 64;
    put(&mut out, b"PE\0\0");
    put(&mut out, &[0x64, 0x86, 1, 0, 0, 0, 0, 0]);
    put(&mut out, &240u32.to_le_bytes());
    put(&mut out, &1u32.to_le_bytes());
    put(&mut out, &[112, 0, 0, 0]);
    let mut header = vec![0u8; 112];
    header[..2].copy_from_slice(&[0x0B, 0x02]);
    header[24..32].copy_from_slice(&base.to_le_bytes());
    put(&mut out, &header);
    put(&mut out, b".text\0\0\0");
    put(&mut out, &64u32.to_le_bytes());
    put(&mut out, &0x1000u32.to_le_bytes());
    put(&mut out, &[0; 20]);
    put(&mut out, &0x6000_0020u32.to_le_bytes());
    put(&mut out, b"main\0\0\0\0");
    put(&mut out, &[0x10, 0, 0, 0, 1, 0, 0x20, 0, 2, 0]);
    put(&mut out, &4u32.to_le_bytes());
    out
}

#[test]
fn images_are_read_where_addresses_have_room() {
    let found = |address: u64| {
        Some(vec![SymbolInfo { name: "main".to_string(), address, size: FALLBACK_SIZE }])
    };
    assert_eq!(get_elf_symbols(&small_image(0x1_4000_0000)), found(0x1_4000_1010));
    let highest = u64::MAX - 2 * u64::from(u32::MAX);
    assert_eq!(get_elf_symbols(&small_image(highest)), found(highest + 0x1010));
    assert_eq!(high_image_base(&small_image(highest)), None);
    assert_eq!(high_image_base(&small_image(highest + 1)), Some(highest + 1));
    assert_eq!(get_elf_symbols(&small_image(highest + 1)), found(highest + 0x1011));
    assert_eq!(get_elf_symbols(&small_image(u64::MAX - 0x1010)), found(u64::MAX));
    assert_eq!(get_elf_symbols(&small_image(u64::MAX - 0x100F)), None);
    assert_eq!(get_elf_symbols(&small_image(u64::MAX)), None);
    let mut data_only = small_image(u64::MAX);
    data_only[254] = 0;
    assert_eq!(get_elf_symbols(&data_only), Some(vec![]));
    assert_eq!(high_image_base(&small_image(u64::MAX)[..119]), None);
    assert_eq!(high_image_base(b"MZ"), None);
}

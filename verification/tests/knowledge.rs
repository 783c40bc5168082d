use romhack::knowledge::{parse_nm_output, Symbol};
use romhack::server::collection_name;

#[test]
fn plain_nm_three_columns() {
    let output = "08000000 T Reset_Handler\n08000100 T main\n";
    let syms = parse_nm_output(output);
    assert_eq!(syms.len(), 2);
    assert_eq!(syms[0].address, 0x0800_0000);
    assert_eq!(syms[0].kind, "T");
    assert_eq!(syms[0].name, "Reset_Handler");
    assert_eq!(syms[0].size, None);
}

#[test]
fn nm_with_size_four_columns() {
    let output = "08000000 00000004 T Reset_Handler\n08000004 000000fc T main\n";
    let syms = parse_nm_output(output);
    assert_eq!(syms.len(), 2);
    assert_eq!(syms[0].size, Some(4));
    assert_eq!(syms[1].size, Some(0xfc));
}

#[test]
fn undefined_symbols_skipped() {
    let output = "         U _estack\n08000000 T main\n";
    let syms = parse_nm_output(output);
    assert_eq!(syms.len(), 1);
    assert_eq!(syms[0].name, "main");
}

#[test]
fn empty_lines_skipped() {
    let output = "\n\n08000000 T main\n\n";
    let syms = parse_nm_output(output);
    assert_eq!(syms.len(), 1);
}

#[test]
fn header_lines_skipped() {
    let output = "pokemon.elf:\n08000000 T main\n";
    let syms = parse_nm_output(output);
    assert_eq!(syms.len(), 1);
}

#[test]
fn local_and_global_symbols() {
    let output = "08000000 T GlobalFunc\n08000010 t local_helper\n";
    let syms = parse_nm_output(output);
    assert_eq!(syms.len(), 2);
    assert_eq!(syms[0].kind, "T");
    assert_eq!(syms[1].kind, "t");
}

#[test]
fn data_and_bss_symbols() {
    let output = "20000000 00000004 D gCounter\n20000004 00000100 B gBuffer\n";
    let syms = parse_nm_output(output);
    assert_eq!(syms.len(), 2);
    assert_eq!(syms[0].kind, "D");
    assert_eq!(syms[1].kind, "B");
}

#[test]
fn mixed_output_roundtrip() {
    let output = "         U external_dep\n\
                  08000000 00000004 T Reset_Handler\n\
                  08000004 000000f8 T main\n\
                  080000fc 0000000c t init_bss\n\
                  20000000 00000010 D gConfig\n\
                  20000010 00000200 B gStack\n";
    let syms = parse_nm_output(output);
    assert_eq!(syms.len(), 5);
    assert_eq!(syms[0].address, 0x0800_0000);
    assert_eq!(syms[4].address, 0x2000_0010);
}

#[test]
fn empty_input() {
    assert!(parse_nm_output("").is_empty());
}

#[test]
fn collection_name_format() {
    assert_eq!(collection_name("ds"), "romhack_ds");
    assert_eq!(collection_name("gba"), "romhack_gba");
    assert_eq!(collection_name("gen"), "romhack_gen");
}

// ── Further cases ────────────────────────────────────────────────────────────

#[test]
fn every_symbol_comes_from_the_decompilation() {
    let syms = parse_nm_output("08000000 T a\n08000004 00000002 t b\n");
    assert!(syms.iter().all(|s| s.source == "decomp"));
}

#[test]
fn bad_address_skips_line_bad_size_keeps_it() {
    let syms = parse_nm_output("zz000000 T bad\n08000000 nothex T main\n");
    assert_eq!(syms.len(), 1);
    assert_eq!(syms[0].name, "main");
    assert_eq!(syms[0].size, None);
}

#[test]
fn address_overflow_and_plus_sign() {
    let syms = parse_nm_output("100000000 T big\n+10 T plus\n");
    assert_eq!(syms.len(), 1);
    assert_eq!(syms[0].address, 0x10);
}

#[test]
fn from_decomp_tags_source() {
    let s = Symbol::from_decomp(0x0200_0000, Some(0x10), "T", "main");
    assert_eq!(s.address, 0x0200_0000);
    assert_eq!(s.size, Some(0x10));
    assert_eq!(s.kind, "T");
    assert_eq!(s.name, "main");
    assert_eq!(s.source, "decomp");
}

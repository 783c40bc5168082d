use romhack::ops::{
    apply_patch_ips_cmd, assemble_thumb_cmds, build_cmd, check_cmd, clean_cmd, disassemble_cmd,
    generate_patch_ips_cmd, grep_cmd, hexdump_cmd, list_ops, read_instruction_cmd,
};
use romhack::objdump::parse_objdump_byte_count;
use romhack::protocol::Arch;
use romhack::targets::parse_make_targets;

#[test]
fn build_no_args() {
    assert_eq!(build_cmd(None, None), vec!["make"]);
}

#[test]
fn build_target_only() {
    assert_eq!(build_cmd(Some("rom.gba"), None), vec!["make", "rom.gba"]);
}

#[test]
fn build_jobs_only() {
    assert_eq!(build_cmd(None, Some(4)), vec!["make", "-j4"]);
}

#[test]
fn build_all_args() {
    assert_eq!(build_cmd(Some("all"), Some(8)), vec!["make", "-j8", "all"]);
}

#[test]
fn ops_clean() {
    assert_eq!(clean_cmd(), vec!["make", "clean"]);
}

#[test]
fn check_simple() {
    assert_eq!(check_cmd("git"), vec!["which", "git"]);
}

#[test]
fn check_cross_compiler() {
    assert_eq!(check_cmd("gcc-arm-none-eabi"), vec!["which", "gcc-arm-none-eabi"]);
}

#[test]
fn disassemble_no_opts() {
    assert_eq!(disassemble_cmd("rom.elf", None, None), vec!["objdump", "-d", "rom.elf"]);
}

#[test]
fn disassemble_offset_only() {
    let args = disassemble_cmd("rom.elf", Some(0x8000), None);
    assert!(args.contains(&"--start-address=0x8000".to_string()));
    assert!(!args.iter().any(|a| a.starts_with("--stop-address")));
    assert_eq!(args.last().unwrap(), "rom.elf");
}

#[test]
fn disassemble_length_only() {
    let args = disassemble_cmd("rom.elf", None, Some(0x100));
    assert!(!args.iter().any(|a| a.starts_with("--start-address")));
    assert!(args.contains(&"--stop-address=0x100".to_string()));
    assert_eq!(args.last().unwrap(), "rom.elf");
}

#[test]
fn disassemble_both() {
    let args = disassemble_cmd("rom.elf", Some(0x8000), Some(0x100));
    assert!(args.contains(&"--start-address=0x8000".to_string()));
    assert!(args.contains(&"--stop-address=0x100".to_string()));
    assert_eq!(args.last().unwrap(), "rom.elf");
}

#[test]
fn hexdump_no_opts() {
    assert_eq!(hexdump_cmd("rom.bin", None, None), vec!["xxd", "rom.bin"]);
}

#[test]
fn hexdump_offset() {
    let args = hexdump_cmd("rom.bin", Some(0x10), None);
    assert_eq!(args, vec!["xxd", "-s", "0x10", "rom.bin"]);
}

#[test]
fn hexdump_length() {
    let args = hexdump_cmd("rom.bin", None, Some(32));
    assert_eq!(args, vec!["xxd", "-l", "32", "rom.bin"]);
}

#[test]
fn hexdump_both() {
    let args = hexdump_cmd("rom.bin", Some(0x10), Some(32));
    assert_eq!(args, vec!["xxd", "-s", "0x10", "-l", "32", "rom.bin"]);
}

#[test]
fn ops_grep_minimal() {
    let args = grep_cmd("main", None, true);
    assert_eq!(args, vec!["rg", "--color=never", "main"]);
}

#[test]
fn grep_with_path() {
    let args = grep_cmd("TODO", Some("src/"), true);
    assert_eq!(args, vec!["rg", "--color=never", "TODO", "src/"]);
}

#[test]
fn grep_non_recursive() {
    let args = grep_cmd("TODO", None, false);
    assert!(args.contains(&"--max-depth=1".to_string()));
    assert!(args.contains(&"TODO".to_string()));
}

#[test]
fn read_instruction_thumb_argv() {
    let args = read_instruction_cmd("rom.gba", 0x800_0100, &Arch::Thumb).unwrap();
    assert_eq!(args[0], "arm-none-eabi-objdump");
    assert!(args.contains(&"-b".to_string()));
    assert!(args.contains(&"binary".to_string()));
    assert!(args.contains(&"-m".to_string()));
    assert!(args.contains(&"arm".to_string()));
    assert!(args.iter().any(|a| a.contains("force-thumb")));
    assert!(args.contains(&"-D".to_string()));
    assert!(args.iter().any(|a| a.contains("start-address")));
    assert!(args.iter().any(|a| a.contains("stop-address")));
    assert_eq!(args.last().unwrap(), "rom.gba");
}

#[test]
fn read_instruction_unsupported_returns_err() {
    let result = read_instruction_cmd("rom.bin", 0, &Arch::Mips32);
    assert!(result.is_err());
    assert!(result.unwrap_err().contains("not yet implemented"));
}

#[test]
fn assemble_thumb_as_argv() {
    let (as_args, _) = assemble_thumb_cmds("/tmp/out.o", "/tmp/out.bin");
    assert_eq!(as_args[0], "arm-none-eabi-as");
    assert!(as_args.contains(&"-mthumb".to_string()));
    assert!(as_args.contains(&"-o".to_string()));
    assert!(as_args.contains(&"/tmp/out.o".to_string()));
    assert_eq!(as_args.last().unwrap(), "-");
}

#[test]
fn assemble_thumb_objcopy_argv() {
    let (_, objcopy_args) = assemble_thumb_cmds("/tmp/out.o", "/tmp/out.bin");
    assert_eq!(objcopy_args[0], "arm-none-eabi-objcopy");
    assert!(objcopy_args.contains(&"-O".to_string()));
    assert!(objcopy_args.contains(&"binary".to_string()));
    assert!(objcopy_args.iter().any(|a| a.contains("text")));
    assert!(objcopy_args.contains(&"/tmp/out.o".to_string()));
    assert_eq!(objcopy_args.last().unwrap(), "/tmp/out.bin");
}

#[test]
fn generate_patch_ips_argv() {
    let args = generate_patch_ips_cmd("orig.gba", "mod.gba", "patch.ips");
    assert_eq!(args[0], "flips");
    assert!(args.contains(&"--create".to_string()));
    assert!(args.contains(&"--ips".to_string()));
    assert!(args.contains(&"orig.gba".to_string()));
    assert!(args.contains(&"mod.gba".to_string()));
    assert_eq!(args.last().unwrap(), "patch.ips");
}

#[test]
fn apply_patch_ips_argv() {
    let args = apply_patch_ips_cmd("orig.gba", "patch.ips", "out.gba");
    assert_eq!(args[0], "flips");
    assert!(args.contains(&"--apply".to_string()));
    assert!(args.contains(&"--ips".to_string()));
    assert!(args.contains(&"patch.ips".to_string()));
    assert!(args.contains(&"orig.gba".to_string()));
    assert_eq!(args.last().unwrap(), "out.gba");
}

#[test]
fn parse_objdump_two_byte_thumb() {
    let output = "   8000100:\t01 d0       \tbne.n\t0x8000104\n";
    assert_eq!(parse_objdump_byte_count(output), Some(2));
}

#[test]
fn parse_objdump_four_byte_thumb2() {
    let output = "   8000100:\tf0 b5 03 af \tpush\t{r4, r5, r6, r7, lr}\n";
    assert_eq!(parse_objdump_byte_count(output), Some(4));
}

#[test]
fn parse_objdump_skips_header_lines() {
    let output = "\nrom.bin:     file format binary\n\n\
                  Disassembly of section .data:\n\n\
                  00000000 <.data>:\n\
                  \t0:\te0 12 ff ff \tldr\tr1, [r0, r2]\n";
    assert_eq!(parse_objdump_byte_count(output), Some(4));
}

#[test]
fn parse_objdump_empty_returns_none() {
    assert_eq!(parse_objdump_byte_count(""), None);
    assert_eq!(parse_objdump_byte_count("no instructions here"), None);
}

#[test]
fn parse_make_targets_basic() {
    let output = "all: foo bar\nfoo: src/main.c\nbar:\n";
    let targets = parse_make_targets(output);
    assert!(targets.contains(&"all".to_string()));
    assert!(targets.contains(&"foo".to_string()));
    assert!(targets.contains(&"bar".to_string()));
    assert_eq!(targets.len(), 3);
}

#[test]
fn parse_make_targets_filters_dot_targets() {
    let output = ".PHONY: all\n.DEFAULT_GOAL := all\nall:\n";
    let targets = parse_make_targets(output);
    assert!(!targets.contains(&".PHONY".to_string()));
    assert!(!targets.contains(&".DEFAULT_GOAL".to_string()));
    assert!(targets.contains(&"all".to_string()));
}

#[test]
fn parse_make_targets_filters_pattern_rules() {
    let output = "%.o: %.c\nall:\n";
    let targets = parse_make_targets(output);
    assert!(!targets.iter().any(|t| t.contains('%')));
    assert!(targets.contains(&"all".to_string()));
}

#[test]
fn parse_make_targets_filters_variable_assignments() {
    let output = "CC := gcc\nLD = ld\nall:\n";
    let targets = parse_make_targets(output);
    assert!(!targets.contains(&"CC".to_string()));
    assert!(!targets.contains(&"LD".to_string()));
    assert!(targets.contains(&"all".to_string()));
}

#[test]
fn parse_make_targets_skips_comment_lines() {
    let output = "# this is a comment\nall:\n# another comment\n";
    let targets = parse_make_targets(output);
    assert_eq!(targets, vec!["all".to_string()]);
}

#[test]
fn parse_make_targets_deduplicates() {
    let output = "all: foo\nall: bar\n";
    let targets = parse_make_targets(output);
    assert_eq!(targets.iter().filter(|t| *t == "all").count(), 1);
}

#[test]
fn parse_make_targets_sorted() {
    let output = "zzz:\naaa:\nmmm:\n";
    let targets = parse_make_targets(output);
    let mut sorted = targets.clone();
    sorted.sort();
    assert_eq!(targets, sorted);
}

#[test]
fn parse_make_targets_empty_input() {
    assert!(parse_make_targets("").is_empty());
}

// ── Further cases ────────────────────────────────────────────────────────────

#[test]
fn list_ops_names_every_op() {
    let ops = list_ops();
    for op in ["build", "read_instruction", "write_bytes", "generate_patch", "list_targets", "list_ops"] {
        assert!(ops.contains(op), "missing {op}");
    }
}

#[test]
fn read_instruction_exact_argv() {
    let args = read_instruction_cmd("rom.gba", 0x800_0100, &Arch::Thumb).unwrap();
    assert_eq!(
        args,
        vec![
            "arm-none-eabi-objdump",
            "-b",
            "binary",
            "-m",
            "arm",
            "--disassembler-options=force-thumb",
            "-D",
            "--start-address=0x8000100",
            "--stop-address=0x8000104",
            "rom.gba",
        ]
    );
}

#[test]
fn read_instruction_error_names_the_arch() {
    assert_eq!(
        read_instruction_cmd("rom.bin", 0, &Arch::Snes65816).unwrap_err(),
        "arch Snes65816 not yet implemented"
    );
}

#[test]
fn build_jobs_zero_and_max() {
    assert_eq!(build_cmd(None, Some(0)), vec!["make", "-j0"]);
    assert_eq!(build_cmd(None, Some(255)), vec!["make", "-j255"]);
}

#[test]
fn hex_addresses_are_lower_case() {
    let args = disassemble_cmd("a.elf", Some(0xDEADBEEF), Some(0));
    assert_eq!(args, vec!["objdump", "-d", "--start-address=0xdeadbeef", "--stop-address=0x0", "a.elf"]);
}

#[test]
fn parse_make_targets_exact_order() {
    let output = "zzz:\naaa: x\n\tcmd: y\nmmm::\naaa:\nb.c := 1\n";
    assert_eq!(parse_make_targets(output), vec!["aaa", "mmm", "zzz"]);
}

#[test]
fn parse_make_targets_trims_names_and_crlf() {
    let output = "  indented: x\nspaced target  : dep\r\nlast:";
    assert_eq!(parse_make_targets(output), vec!["last", "spaced target"]);
}

#[test]
fn parse_objdump_needs_two_tabs() {
    assert_eq!(parse_objdump_byte_count("   8000100:\t01 d0\n"), None);
    assert_eq!(parse_objdump_byte_count("a:\t\tnop\n   4:\t00 bf\tnop\n"), Some(2));
}

#[test]
fn parse_make_targets_skips_assignments_with_colons() {
    let output = "PATH = /usr/bin:/bin\nCC ::= gcc\nOPT ?= a:b\nall:\n";
    assert_eq!(parse_make_targets(output), vec!["all"]);
}

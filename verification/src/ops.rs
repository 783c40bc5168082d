//! Command builders for each op: each returns the full argv of a fixed
//! program. No shell is involved and no user-supplied string ever stands in
//! command position.
use vstd::prelude::*;
use crate::num::{dec, hex, push_dec, push_hex};
use crate::protocol::{Arch, arch_name};
use crate::text::{views, string_of, string_from, append_str};

verus! {

/// The view of an optional string argument.
pub open spec fn opt_str(o: Option<&str>) -> Option<Seq<char>> {
    match o {
        Some(s) => Some(s@),
        None => None,
    }
}

/// The argument list `[a]` when `o` is `Some(a)`, and `[]` otherwise.
pub open spec fn opt_arg(o: Option<Seq<char>>) -> Seq<Seq<char>> {
    match o {
        Some(a) => seq![a],
        None => seq![],
    }
}

/// argv of `Build`: `make [-j<jobs>] [<target>]`.
pub open spec fn build_argv(target: Option<Seq<char>>, jobs: Option<u8>) -> Seq<Seq<char>> {
    seq!["make"@] + opt_arg(
        match jobs {
            Some(j) => Some("-j"@ + dec(j as nat)),
            None => None,
        },
    ) + opt_arg(target)
}

/// argv of `Disassemble`: `objdump -d [--start-address=0x<offset>]
/// [--stop-address=0x<length>] <file>`.
pub open spec fn disassemble_argv(file: Seq<char>, offset: Option<u32>, length: Option<u32>) -> Seq<Seq<char>> {
    seq!["objdump"@, "-d"@] + opt_arg(
        match offset {
            Some(o) => Some("--start-address=0x"@ + hex(o as nat)),
            None => None,
        },
    ) + opt_arg(
        match length {
            Some(l) => Some("--stop-address=0x"@ + hex(l as nat)),
            None => None,
        },
    ) + seq![file]
}

/// argv of `HexDump`: `xxd [-s 0x<offset>] [-l <length>] <file>`.
pub open spec fn hexdump_argv(file: Seq<char>, offset: Option<u32>, length: Option<u32>) -> Seq<Seq<char>> {
    seq!["xxd"@] + match offset {
        Some(o) => seq!["-s"@, "0x"@ + hex(o as nat)],
        None => seq![],
    } + match length {
        Some(l) => seq!["-l"@, dec(l as nat)],
        None => seq![],
    } + seq![file]
}

/// argv of `Grep`: `rg --color=never [--max-depth=1] <pattern> [<path>]`;
/// ripgrep recurses by default, so a non-recursive search caps the depth.
pub open spec fn grep_argv(pattern: Seq<char>, path: Option<Seq<char>>, recursive: bool) -> Seq<Seq<char>> {
    seq!["rg"@, "--color=never"@] + (if recursive {
        seq![]
    } else {
        seq!["--max-depth=1"@]
    }) + seq![pattern] + opt_arg(path)
}

/// argv that disassembles the one Thumb instruction at `offset` of a raw
/// binary (at most 4 bytes, the widest Thumb-2 encoding).
pub open spec fn read_instruction_argv(file: Seq<char>, offset: u32) -> Seq<Seq<char>> {
    seq![
        "arm-none-eabi-objdump"@,
        "-b"@,
        "binary"@,
        "-m"@,
        "arm"@,
        "--disassembler-options=force-thumb"@,
        "-D"@,
        "--start-address=0x"@ + hex(offset as nat),
        "--stop-address=0x"@ + hex((offset + 4) as nat),
        file,
    ]
}

/// The error for an architecture without toolchain support.
pub open spec fn arch_unsupported_message(arch: Arch) -> Seq<char> {
    "arch "@ + arch_name(arch) + " not yet implemented"@
}

/// argv of the assembler, reading the instruction from stdin.
pub open spec fn assemble_argv(obj_path: Seq<char>) -> Seq<Seq<char>> {
    seq!["arm-none-eabi-as"@, "-mthumb"@, "-o"@, obj_path, "-"@]
}

/// argv that extracts the raw `.text` bytes of the object file.
pub open spec fn objcopy_argv(obj_path: Seq<char>, bin_path: Seq<char>) -> Seq<Seq<char>> {
    seq!["arm-none-eabi-objcopy"@, "-O"@, "binary"@, "--only-section=.text"@, obj_path, bin_path]
}

/// argv that diffs two ROMs into an IPS patch.
pub open spec fn generate_patch_argv(original: Seq<char>, modified: Seq<char>, output: Seq<char>) -> Seq<Seq<char>> {
    seq!["flips"@, "--create"@, "--ips"@, original, modified, output]
}

/// argv that applies an IPS patch to a ROM.
pub open spec fn apply_patch_argv(rom: Seq<char>, patch: Seq<char>, output: Seq<char>) -> Seq<Seq<char>> {
    seq!["flips"@, "--apply"@, "--ips"@, patch, rom, output]
}

/// The ops the agent lists.
pub open spec fn list_ops_text() -> Seq<char> {
    "build, clean, check, disassemble, hex_dump, grep, git_status, git_diff, read_instruction, write_instruction, read_bytes, write_bytes, generate_patch, apply_patch, list_targets, list_ops"@
}

/// A `String` holding `prefix` followed by the decimal digits of `n`.
fn prefixed_dec(prefix: &str, n: u32) -> (r: String)
    ensures
        r@ == prefix@ + dec(n as nat),
{
    let mut v: Vec<char> = Vec::new();
    append_str(&mut v, prefix);
    push_dec(&mut v, n);
    string_of(&v)
}

/// The decimal digits of `n`.
pub fn dec_string(n: u32) -> (r: String)
    ensures
        r@ == dec(n as nat),
{
    let mut v: Vec<char> = Vec::new();
    push_dec(&mut v, n);
    assert(v@ =~= dec(n as nat));
    string_of(&v)
}

/// A `String` holding `prefix` followed by the lower-case hex digits of `n`.
fn prefixed_hex(prefix: &str, n: u32) -> (r: String)
    ensures
        r@ == prefix@ + hex(n as nat),
{
    let mut v: Vec<char> = Vec::new();
    append_str(&mut v, prefix);
    push_hex(&mut v, n);
    string_of(&v)
}

pub fn build_cmd(target: Option<&str>, jobs: Option<u8>) -> (r: Vec<String>)
    ensures
        views(r@) == build_argv(opt_str(target), jobs),
{
    let mut args: Vec<String> = Vec::new();
    args.push(string_from("make"));
    if let Some(j) = jobs {
        args.push(prefixed_dec("-j", j as u32));
    }
    if let Some(t) = target {
        args.push(string_from(t));
    }
    assert(views(args@) =~= build_argv(opt_str(target), jobs));
    args
}

pub fn clean_cmd() -> (r: Vec<String>)
    ensures
        views(r@) == seq!["make"@, "clean"@],
{
    let args = vec![string_from("make"), string_from("clean")];
    assert(views(args@) =~= seq!["make"@, "clean"@]);
    args
}

/// `which <tool>`: the tool name is an argument, never a command.
pub fn check_cmd(tool: &str) -> (r: Vec<String>)
    ensures
        views(r@) == seq!["which"@, tool@],
{
    let args = vec![string_from("which"), string_from(tool)];
    assert(views(args@) =~= seq!["which"@, tool@]);
    args
}

pub fn disassemble_cmd(file: &str, offset: Option<u32>, length: Option<u32>) -> (r: Vec<String>)
    ensures
        views(r@) == disassemble_argv(file@, offset, length),
{
    let mut args: Vec<String> = Vec::new();
    args.push(string_from("objdump"));
    args.push(string_from("-d"));
    if let Some(o) = offset {
        args.push(prefixed_hex("--start-address=0x", o));
    }
    if let Some(l) = length {
        args.push(prefixed_hex("--stop-address=0x", l));
    }
    args.push(string_from(file));
    assert(views(args@) =~= disassemble_argv(file@, offset, length));
    args
}

pub fn hexdump_cmd(file: &str, offset: Option<u32>, length: Option<u32>) -> (r: Vec<String>)
    ensures
        views(r@) == hexdump_argv(file@, offset, length),
{
    let mut args: Vec<String> = Vec::new();
    args.push(string_from("xxd"));
    if let Some(o) = offset {
        args.push(string_from("-s"));
        args.push(prefixed_hex("0x", o));
    }
    if let Some(l) = length {
        args.push(string_from("-l"));
        args.push(dec_string(l));
    }
    args.push(string_from(file));
    assert(views(args@) =~= hexdump_argv(file@, offset, length));
    args
}

pub fn grep_cmd(pattern: &str, path: Option<&str>, recursive: bool) -> (r: Vec<String>)
    ensures
        views(r@) == grep_argv(pattern@, opt_str(path), recursive),
{
    let mut args: Vec<String> = Vec::new();
    args.push(string_from("rg"));
    args.push(string_from("--color=never"));
    if !recursive {
        args.push(string_from("--max-depth=1"));
    }
    args.push(string_from(pattern));
    if let Some(p) = path {
        args.push(string_from(p));
    }
    assert(views(args@) =~= grep_argv(pattern@, opt_str(path), recursive));
    args
}

/// The comma-separated list of supported ops.
pub fn list_ops() -> (r: String)
    ensures
        r@ == list_ops_text(),
{
    string_from(
        "build, clean, check, disassemble, hex_dump, grep, git_status, git_diff, read_instruction, write_instruction, read_bytes, write_bytes, generate_patch, apply_patch, list_targets, list_ops",
    )
}

/// The objdump argv that disassembles one instruction at `offset`; only
/// Thumb is supported.
pub fn read_instruction_cmd(file: &str, offset: u32, arch: &Arch) -> (r: Result<Vec<String>, String>)
    requires
        *arch == Arch::Thumb ==> offset + 4 <= u32::MAX,
    ensures
        *arch == Arch::Thumb ==> (r matches Ok(v) && views(v@) == read_instruction_argv(file@, offset)),
        *arch != Arch::Thumb ==> (r matches Err(e) && e@ == arch_unsupported_message(*arch)),
{
    match arch {
        Arch::Thumb => {
            let args = vec![
                string_from("arm-none-eabi-objdump"),
                string_from("-b"),
                string_from("binary"),
                string_from("-m"),
                string_from("arm"),
                string_from("--disassembler-options=force-thumb"),
                string_from("-D"),
                prefixed_hex("--start-address=0x", offset),
                prefixed_hex("--stop-address=0x", offset + 4),
                string_from(file),
            ];
            assert(views(args@) =~= read_instruction_argv(file@, offset));
            Ok(args)
        },
        _ => Err(arch_unsupported(arch)),
    }
}

/// "arch <name> not yet implemented".
pub fn arch_unsupported(arch: &Arch) -> (r: String)
    ensures
        r@ == arch_unsupported_message(*arch),
{
    let mut v: Vec<char> = Vec::new();
    append_str(&mut v, "arch ");
    let name = arch.name();
    append_str(&mut v, name.as_str());
    append_str(&mut v, " not yet implemented");
    string_of(&v)
}

/// The assembler and objcopy argvs that turn one instruction (given on the
/// assembler's stdin) into raw bytes at `bin_path`; run them in order.
pub fn assemble_thumb_cmds(obj_path: &str, bin_path: &str) -> (r: (Vec<String>, Vec<String>))
    ensures
        views(r.0@) == assemble_argv(obj_path@),
        views(r.1@) == objcopy_argv(obj_path@, bin_path@),
{
    let as_args = vec![
        string_from("arm-none-eabi-as"),
        string_from("-mthumb"),
        string_from("-o"),
        string_from(obj_path),
        string_from("-"),
    ];
    let objcopy_args = vec![
        string_from("arm-none-eabi-objcopy"),
        string_from("-O"),
        string_from("binary"),
        string_from("--only-section=.text"),
        string_from(obj_path),
        string_from(bin_path),
    ];
    assert(views(as_args@) =~= assemble_argv(obj_path@));
    assert(views(objcopy_args@) =~= objcopy_argv(obj_path@, bin_path@));
    (as_args, objcopy_args)
}

pub fn generate_patch_ips_cmd(original: &str, modified: &str, output: &str) -> (r: Vec<String>)
    ensures
        views(r@) == generate_patch_argv(original@, modified@, output@),
{
    let args = vec![
        string_from("flips"),
        string_from("--create"),
        string_from("--ips"),
        string_from(original),
        string_from(modified),
        string_from(output),
    ];
    assert(views(args@) =~= generate_patch_argv(original@, modified@, output@));
    args
}

pub fn apply_patch_ips_cmd(rom: &str, patch: &str, output: &str) -> (r: Vec<String>)
    ensures
        views(r@) == apply_patch_argv(rom@, patch@, output@),
{
    let args = vec![
        string_from("flips"),
        string_from("--apply"),
        string_from("--ips"),
        string_from(patch),
        string_from(rom),
        string_from(output),
    ];
    assert(views(args@) =~= apply_patch_argv(rom@, patch@, output@));
    args
}

} // verus!

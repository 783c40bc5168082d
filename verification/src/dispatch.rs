//! Turning a request into what the agent does about it.
use vstd::prelude::*;
use crate::edits::{InstructionEdit, prefixed};
use crate::hexcodec::{decode_would_split_char, decode_hex, hex_decode, hex_decode_panics};
use crate::ops::{
    apply_patch_argv, apply_patch_ips_cmd, arch_unsupported, arch_unsupported_message, build_argv,
    build_cmd, check_cmd, clean_cmd, disassemble_argv, disassemble_cmd, generate_patch_argv,
    generate_patch_ips_cmd, grep_argv, grep_cmd, hexdump_argv, hexdump_cmd, list_ops,
    list_ops_text, opt_arg, read_instruction_argv, read_instruction_cmd,
};
use crate::protocol::{Arch, Op, PatchFormat, Request, Response, is_consistent_response, is_error_response};
use crate::text::{string_from, views};

verus! {

/// What the agent does about one request.
pub enum Plan {
    /// Answer at once with this response.
    Reply(Response),
    /// Run this argv in the request's working directory and answer with its
    /// outcome.
    Run(Vec<String>),
    /// List the targets of this Makefile (`make -pRrq -f <file>`).
    ListTargets(String),
    /// Read `length` bytes of `file` at `offset` and answer them as hex.
    ReadBytes { file: String, offset: u32, length: u32 },
    /// Write `bytes` into `file` at `offset`.
    WriteBytes { file: String, offset: u32, bytes: Vec<u8> },
    /// Carry out a Thumb instruction edit.
    WriteInstruction(InstructionEdit),
}

/// The view of an optional `String`.
pub open spec fn opt_view(o: Option<String>) -> Option<Seq<char>> {
    match o {
        Some(s) => Some(s@),
        None => None,
    }
}

/// The programs the agent ever runs.
pub open spec fn is_fixed_program(p: Seq<char>) -> bool {
    ||| p == "make"@
    ||| p == "which"@
    ||| p == "objdump"@
    ||| p == "xxd"@
    ||| p == "rg"@
    ||| p == "git"@
    ||| p == "arm-none-eabi-objdump"@
    ||| p == "flips"@
}

/// `p` runs exactly `argv`.
pub open spec fn plans_run(p: Plan, argv: Seq<Seq<char>>) -> bool {
    p matches Plan::Run(args) && views(args@) == argv
}

/// `p` answers at once with the error `msg` for request `id`.
pub open spec fn plans_error(p: Plan, id: Seq<char>, msg: Seq<char>) -> bool {
    p matches Plan::Reply(r) && is_error_response(r, id, msg)
}

/// A request the agent can take without a failing assertion: a Thumb
/// instruction op needs room for the four bytes after `offset`, and hex
/// text must not be cut inside a character.
pub open spec fn dispatchable(req: Request) -> bool {
    match req.op {
        Op::ReadInstruction { offset, arch, .. } => arch == Arch::Thumb ==> offset + 4 <= u32::MAX,
        Op::WriteInstruction { offset, arch, .. } => arch == Arch::Thumb ==> offset + 4 <= u32::MAX,
        Op::WriteBytes { bytes, .. } => !hex_decode_panics(bytes@),
        _ => true,
    }
}

/// Whether the agent can take `req` (see `dispatchable`).
pub fn is_dispatchable(req: &Request) -> (r: bool)
    ensures
        r == dispatchable(*req),
{
    match &req.op {
        Op::ReadInstruction { offset, arch, .. } => match arch {
            Arch::Thumb => *offset <= u32::MAX - 4,
            _ => true,
        },
        Op::WriteInstruction { offset, arch, .. } => match arch {
            Arch::Thumb => *offset <= u32::MAX - 4,
            _ => true,
        },
        Op::WriteBytes { bytes, .. } => !decode_would_split_char(bytes.as_str()),
        _ => true,
    }
}

/// What the agent does about `req`.
pub open spec fn dispatch_plan(req: Request, p: Plan) -> bool {
    let id = req.id@;
    match req.op {
        Op::Build { target, jobs } => plans_run(p, build_argv(opt_view(target), jobs)),
        Op::Clean => plans_run(p, seq!["make"@, "clean"@]),
        Op::Check { tool } => plans_run(p, seq!["which"@, tool@]),
        Op::Disassemble { file, offset, length } => plans_run(p, disassemble_argv(file@, offset, length)),
        Op::HexDump { file, offset, length } => plans_run(p, hexdump_argv(file@, offset, length)),
        Op::Grep { pattern, path, recursive } => plans_run(
            p,
            grep_argv(
                pattern@,
                opt_view(path),
                match recursive {
                    Some(b) => b,
                    None => true,
                },
            ),
        ),
        Op::GitStatus => plans_run(p, seq!["git"@, "status"@, "--short"@]),
        Op::GitDiff { file } => plans_run(p, seq!["git"@, "diff"@] + opt_arg(opt_view(file))),
        Op::ListTargets { file } => p matches Plan::ListTargets(f) && f@ == match file {
            Some(f) => f@,
            None => "Makefile"@,
        },
        Op::ListOps => p matches Plan::Reply(r) && r.id@ == id && r.ok && (r.stdout matches Some(o)
            && o@ == list_ops_text()) && r.stderr is None && r.exit_code == 0 && r.error is None,
        Op::ReadBytes { file, offset, length } => p matches Plan::ReadBytes { file: f, offset: o, length: l }
            && f@ == file@ && o == offset && l == length,
        Op::WriteBytes { file, offset, bytes } => match hex_decode(bytes@) {
            Ok(b) => p matches Plan::WriteBytes { file: f, offset: o, bytes: pb } && f@ == file@ && o
                == offset && pb@ == b,
            Err(e) => plans_error(p, id, "invalid hex string: "@ + e),
        },
        Op::ReadInstruction { file, offset, arch } => if arch == Arch::Thumb {
            plans_run(p, read_instruction_argv(file@, offset))
        } else {
            plans_error(p, id, arch_unsupported_message(arch))
        },
        Op::WriteInstruction { file, offset, arch, instruction } => if arch == Arch::Thumb {
            p matches Plan::WriteInstruction(e) && e.id@ == id && e.file@ == file@ && e.offset
                == offset && e.instruction@ == instruction@
        } else {
            plans_error(p, id, arch_unsupported_message(arch))
        },
        Op::GeneratePatch { original, modified, output, format } => match format {
            PatchFormat::Bps => plans_error(p, id, "BPS format not yet implemented"@),
            PatchFormat::Ips => plans_run(p, generate_patch_argv(original@, modified@, output@)),
        },
        Op::ApplyPatch { rom, patch, output, format } => match format {
            PatchFormat::Bps => plans_error(p, id, "BPS format not yet implemented"@),
            PatchFormat::Ips => plans_run(p, apply_patch_argv(rom@, patch@, output@)),
        },
    }
}

proof fn lemma_plan_programs(req: Request, p: Plan)
    requires
        dispatch_plan(req, p),
    ensures
        p matches Plan::Run(args) ==> args.len() > 0 && is_fixed_program(views(args@)[0]),
{
    if let Plan::Run(args) = p {
        let a = views(args@);
        match req.op {
            Op::Build { target, jobs } => {
                assert(a[0] == "make"@);
            },
            Op::Clean => {
                assert(a[0] == "make"@);
            },
            Op::Check { tool } => {
                assert(a[0] == "which"@);
            },
            Op::Disassemble { file, offset, length } => {
                assert(a[0] == "objdump"@);
            },
            Op::HexDump { file, offset, length } => {
                assert(a[0] == "xxd"@);
            },
            Op::Grep { pattern, path, recursive } => {
                assert(a[0] == "rg"@);
            },
            Op::GitStatus => {
                assert(a[0] == "git"@);
            },
            Op::GitDiff { file } => {
                assert(a[0] == "git"@);
            },
            Op::ReadInstruction { file, offset, arch } => {
                assert(a[0] == "arm-none-eabi-objdump"@);
            },
            Op::GeneratePatch { original, modified, output, format } => {
                assert(a[0] == "flips"@);
            },
            Op::ApplyPatch { rom, patch, output, format } => {
                assert(a[0] == "flips"@);
            },
            _ => {},
        }
        assert(args.len() == a.len());
    }
}

fn opt_as_str(o: &Option<String>) -> (r: Option<&str>)
    ensures
        crate::ops::opt_str(r) == opt_view(*o),
{
    match o {
        Some(s) => Some(s.as_str()),
        None => None,
    }
}

/// Decides what to do about `req`. Every command it plans runs a fixed
/// program; request data only ever appears as arguments.
pub fn dispatch(req: Request) -> (p: Plan)
    requires
        dispatchable(req),
    ensures
        dispatch_plan(req, p),
        p matches Plan::Run(args) ==> args.len() > 0 && is_fixed_program(views(args@)[0]),
        p matches Plan::Reply(r) ==> r.id@ == req.id@ && is_consistent_response(r),
{
    let id = req.id;
    let p = match req.op {
        Op::Build { target, jobs } => Plan::Run(build_cmd(opt_as_str(&target), jobs)),
        Op::Clean => Plan::Run(clean_cmd()),
        Op::Check { tool } => Plan::Run(check_cmd(tool.as_str())),
        Op::Disassemble { file, offset, length } => Plan::Run(disassemble_cmd(file.as_str(), offset, length)),
        Op::HexDump { file, offset, length } => Plan::Run(hexdump_cmd(file.as_str(), offset, length)),
        Op::Grep { pattern, path, recursive } => {
            let rec = match recursive {
                Some(b) => b,
                None => true,
            };
            Plan::Run(grep_cmd(pattern.as_str(), opt_as_str(&path), rec))
        },
        Op::GitStatus => {
            let args = vec![string_from("git"), string_from("status"), string_from("--short")];
            assert(views(args@) =~= seq!["git"@, "status"@, "--short"@]);
            Plan::Run(args)
        },
        Op::GitDiff { file } => {
            let mut args = vec![string_from("git"), string_from("diff")];
            let ghost fv = opt_view(file);
            if let Some(f) = file {
                args.push(f);
            }
            assert(views(args@) =~= seq!["git"@, "diff"@] + opt_arg(fv));
            Plan::Run(args)
        },
        Op::ListTargets { file } => match file {
            Some(f) => Plan::ListTargets(f),
            None => Plan::ListTargets(string_from("Makefile")),
        },
        Op::ListOps => Plan::Reply(
            Response {
                id: string_from(id.as_str()),
                ok: true,
                stdout: Some(list_ops()),
                stderr: None,
                exit_code: 0,
                error: None,
            },
        ),
        Op::ReadBytes { file, offset, length } => Plan::ReadBytes { file, offset, length },
        Op::WriteBytes { file, offset, bytes } => match decode_hex(bytes.as_str()) {
            Ok(b) => Plan::WriteBytes { file, offset, bytes: b },
            Err(e) => Plan::Reply(
                Response::err(id.as_str(), prefixed("invalid hex string: ", e.as_str()).as_str()),
            ),
        },
        Op::ReadInstruction { file, offset, arch } => match read_instruction_cmd(file.as_str(), offset, &arch) {
            Ok(args) => Plan::Run(args),
            Err(e) => Plan::Reply(Response::err(id.as_str(), e.as_str())),
        },
        Op::WriteInstruction { file, offset, arch, instruction } => match arch {
            Arch::Thumb => Plan::WriteInstruction(
                InstructionEdit { id: string_from(id.as_str()), file, offset, instruction },
            ),
            _ => Plan::Reply(Response::err(id.as_str(), arch_unsupported(&arch).as_str())),
        },
        Op::GeneratePatch { original, modified, output, format } => match format {
            PatchFormat::Bps => Plan::Reply(Response::err(id.as_str(), "BPS format not yet implemented")),
            PatchFormat::Ips => Plan::Run(
                generate_patch_ips_cmd(original.as_str(), modified.as_str(), output.as_str()),
            ),
        },
        Op::ApplyPatch { rom, patch, output, format } => match format {
            PatchFormat::Bps => Plan::Reply(Response::err(id.as_str(), "BPS format not yet implemented")),
            PatchFormat::Ips => Plan::Run(apply_patch_ips_cmd(rom.as_str(), patch.as_str(), output.as_str())),
        },
    };
    proof {
        lemma_plan_programs(req, p);
    }
    p
}

} // verus!

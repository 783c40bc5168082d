//! The typed wire protocol between the host and the in-container agent.
//!
//! Each `Op` variant maps to a well-known operation of the platform
//! toolchain; the agent never builds shell strings from user-supplied data,
//! it only runs the fixed commands that correspond to each op.
use vstd::prelude::*;

verus! {

/// CPU architecture: it decides how instructions are encoded for the
/// read/write instruction ops. Only `Thumb` has toolchain support so far;
/// the others are accepted by the protocol and refused by the agent.
#[derive(Debug, Clone, Copy, PartialEq, Eq, Structural)]
pub enum Arch {
    Thumb,
    Arm32,
    Mips32,
    Mos6502,
    Snes65816,
}

/// The name `{:?}` prints for an architecture.
pub open spec fn arch_name(a: Arch) -> Seq<char> {
    match a {
        Arch::Thumb => "Thumb"@,
        Arch::Arm32 => "Arm32"@,
        Arch::Mips32 => "Mips32"@,
        Arch::Mos6502 => "Mos6502"@,
        Arch::Snes65816 => "Snes65816"@,
    }
}

impl Arch {
    /// The variant's name, as `{:?}` prints it.
    pub fn name(&self) -> (r: String)
        ensures
            r@ == arch_name(*self),
    {
        match self {
            Arch::Thumb => String::from_str("Thumb"),
            Arch::Arm32 => String::from_str("Arm32"),
            Arch::Mips32 => String::from_str("Mips32"),
            Arch::Mos6502 => String::from_str("Mos6502"),
            Arch::Snes65816 => String::from_str("Snes65816"),
        }
    }
}

/// Patch file format for patch generation and application. `Bps` is
/// accepted by the protocol and refused until it is implemented.
#[derive(Debug, Clone, Copy, PartialEq, Eq, Structural)]
pub enum PatchFormat {
    Ips,
    Bps,
}

/// The structured error of a `WriteInstruction` whose new instruction
/// encodes to a different number of bytes than the one at the offset.
#[derive(Debug, Clone, PartialEq)]
pub struct SizeMismatchError {
    /// Always `"size_mismatch"`.
    pub kind: String,
    pub existing_bytes: u32,
    pub new_bytes: u32,
}

impl SizeMismatchError {
    pub fn new(existing_bytes: u32, new_bytes: u32) -> (r: Self)
        ensures
            r.kind@ == "size_mismatch"@,
            r.existing_bytes == existing_bytes,
            r.new_bytes == new_bytes,
    {
        SizeMismatchError { kind: String::from_str("size_mismatch"), existing_bytes, new_bytes }
    }
}

/// An operation the agent can run.
#[allow(inconsistent_fields)]
#[derive(Debug, Clone, PartialEq)]
pub enum Op {
    Build { target: Option<String>, jobs: Option<u8> },
    Clean,
    Check { tool: String },
    Disassemble { file: String, offset: Option<u32>, length: Option<u32> },
    HexDump { file: String, offset: Option<u32>, length: Option<u32> },
    Grep { pattern: String, path: Option<String>, recursive: Option<bool> },
    GitStatus,
    GitDiff { file: Option<String> },
    /// List the Make targets of the Makefile `file` (default `"Makefile"`).
    ListTargets { file: Option<String> },
    /// Ask which ops the agent supports.
    ListOps,
    /// Decode the instruction at `offset`.
    ReadInstruction { file: String, offset: u32, arch: Arch },
    /// Encode `instruction`, check that its size matches the instruction at
    /// `offset`, and write it there.
    WriteInstruction { file: String, offset: u32, arch: Arch, instruction: String },
    /// Read `length` raw bytes at `offset`, answered as lower-case hex.
    ReadBytes { file: String, offset: u32, length: u32 },
    /// Write raw bytes, given as a lower-case hex string, at `offset`.
    WriteBytes { file: String, offset: u32, bytes: String },
    /// Diff two ROM files into a patch file.
    GeneratePatch { original: String, modified: String, output: String, format: PatchFormat },
    /// Apply a patch to a ROM, writing the result to `output`.
    ApplyPatch { rom: String, patch: String, output: String, format: PatchFormat },
}

/// One request: an id echoed in the response, an optional working
/// directory inside the container, and the op.
#[derive(Debug, Clone, PartialEq)]
pub struct Request {
    pub id: String,
    pub workdir: Option<String>,
    pub op: Op,
}

/// The agent's answer to one request.
#[derive(Debug, Clone, PartialEq)]
pub struct Response {
    pub id: String,
    pub ok: bool,
    pub stdout: Option<String>,
    pub stderr: Option<String>,
    pub exit_code: i32,
    pub error: Option<String>,
}

/// The response of a finished command: `ok` exactly when it exited with 0,
/// and an empty stderr left out.
pub open spec fn is_success_response(r: Response, id: Seq<char>, stdout: Seq<char>, stderr: Seq<char>, exit_code: i32) -> bool {
    &&& r.id@ == id
    &&& r.ok == (exit_code == 0)
    &&& r.stdout matches Some(o) && o@ == stdout
    &&& if stderr.len() == 0 {
        r.stderr is None
    } else {
        r.stderr matches Some(e) && e@ == stderr
    }
    &&& r.exit_code == exit_code
    &&& r.error is None
}

/// The response of a request that failed before any command finished:
/// not ok, exit code -1, and only the error message set.
pub open spec fn is_error_response(r: Response, id: Seq<char>, error: Seq<char>) -> bool {
    &&& r.id@ == id
    &&& !r.ok
    &&& r.stdout is None
    &&& r.stderr is None
    &&& r.exit_code == -1
    &&& r.error matches Some(e) && e@ == error
}

/// A response whose fields agree: `ok` exactly when the exit code is 0 and
/// there is no error, and an error comes without any output.
pub open spec fn is_consistent_response(r: Response) -> bool {
    &&& r.ok == (r.exit_code == 0 && r.error is None)
    &&& r.error is Some ==> r.stdout is None && r.stderr is None
}

impl Response {
    /// The response of a command that ran to completion.
    pub fn success(id: &str, stdout: String, stderr: String, exit_code: i32) -> (r: Self)
        ensures
            is_success_response(r, id@, stdout@, stderr@, exit_code),
            is_consistent_response(r),
    {
        let stderr = if stderr.as_str().is_empty() {
            None
        } else {
            Some(stderr)
        };
        Response {
            id: id.to_owned(),
            ok: exit_code == 0,
            stdout: Some(stdout),
            stderr,
            exit_code,
            error: None,
        }
    }

    /// The response of a request that could not be carried out.
    pub fn err(id: &str, error: &str) -> (r: Self)
        ensures
            is_error_response(r, id@, error@),
            is_consistent_response(r),
    {
        Response {
            id: id.to_owned(),
            ok: false,
            stdout: None,
            stderr: None,
            exit_code: -1,
            error: Some(error.to_owned()),
        }
    }
}

} // verus!

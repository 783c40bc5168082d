//! The shim's in-container agent: a smaller op set, answered by running
//! the same fixed commands.
use vstd::prelude::*;
use crate::dispatch::{is_fixed_program, opt_view};
use crate::ops::{
    build_argv, build_cmd, check_cmd, clean_cmd, disassemble_argv, disassemble_cmd, hexdump_argv,
    hexdump_cmd, opt_arg, opt_str,
};
use crate::protocol::Response;
use crate::text::{string_from, views};

verus! {

/// The ops the shim agent runs.
#[derive(Debug, Clone, PartialEq)]
pub enum Op {
    Build { target: Option<String>, jobs: Option<u8> },
    Clean,
    Check { tool: String },
    Disassemble { file: String, offset: Option<u32>, length: Option<u32> },
    HexDump { file: String, offset: Option<u32>, length: Option<u32> },
    Grep { pattern: String, path: Option<String>, recursive: Option<bool> },
    GitStatus,
    GitDiff { file: Option<String> },
    /// Ask which ops the agent supports.
    ListOps,
}

/// One request to the shim agent.
#[derive(Debug, Clone, PartialEq)]
pub struct Request {
    pub id: String,
    pub workdir: Option<String>,
    pub op: Op,
}

/// What the shim agent does about a request.
pub enum Plan {
    Reply(Response),
    Run(Vec<String>),
}

/// argv of the shim's `Grep`: `rg --color=never [-r] <pattern> [<path>]`.
pub open spec fn agent_grep_argv(pattern: Seq<char>, path: Option<Seq<char>>, recursive: bool) -> Seq<Seq<char>> {
    seq!["rg"@, "--color=never"@] + (if recursive {
        seq!["-r"@]
    } else {
        seq![]
    }) + seq![pattern] + opt_arg(path)
}

/// The ops the shim agent lists.
pub open spec fn agent_ops_text() -> Seq<char> {
    "build, clean, check, disassemble, hex_dump, grep, git_status, git_diff, list_ops"@
}

pub fn grep_cmd(pattern: &str, path: Option<&str>, recursive: bool) -> (r: Vec<String>)
    ensures
        views(r@) == agent_grep_argv(pattern@, opt_str(path), recursive),
{
    let mut args = vec![string_from("rg"), string_from("--color=never")];
    if recursive {
        args.push(string_from("-r"));
    }
    args.push(string_from(pattern));
    if let Some(p) = path {
        args.push(string_from(p));
    }
    assert(views(args@) =~= agent_grep_argv(pattern@, opt_str(path), recursive));
    args
}

/// The comma-separated list of the shim agent's ops.
pub fn list_ops() -> (r: String)
    ensures
        r@ == agent_ops_text(),
{
    string_from("build, clean, check, disassemble, hex_dump, grep, git_status, git_diff, list_ops")
}

/// What the shim agent does about `req`.
pub open spec fn agent_plan(req: Request, p: Plan) -> bool {
    let run = |argv: Seq<Seq<char>>| p matches Plan::Run(args) && views(args@) == argv;
    match req.op {
        Op::Build { target, jobs } => run(build_argv(opt_view(target), jobs)),
        Op::Clean => run(seq!["make"@, "clean"@]),
        Op::Check { tool } => run(seq!["which"@, tool@]),
        Op::Disassemble { file, offset, length } => run(disassemble_argv(file@, offset, length)),
        Op::HexDump { file, offset, length } => run(hexdump_argv(file@, offset, length)),
        Op::Grep { pattern, path, recursive } => run(
            agent_grep_argv(
                pattern@,
                opt_view(path),
                match recursive {
                    Some(b) => b,
                    None => true,
                },
            ),
        ),
        Op::GitStatus => run(seq!["git"@, "status"@, "--short"@]),
        Op::GitDiff { file } => run(seq!["git"@, "diff"@] + opt_arg(opt_view(file))),
        Op::ListOps => p matches Plan::Reply(r) && r.id@ == req.id@ && r.ok && (r.stdout matches Some(
            o,
        ) && o@ == agent_ops_text()) && r.stderr is None && r.exit_code == 0 && r.error is None,
    }
}

fn opt_as_str(o: &Option<String>) -> (r: Option<&str>)
    ensures
        opt_str(r) == opt_view(*o),
{
    match o {
        Some(s) => Some(s.as_str()),
        None => None,
    }
}

/// Decides what the shim agent does about `req`; every command runs a
/// fixed program.
pub fn dispatch(req: Request) -> (p: Plan)
    ensures
        agent_plan(req, p),
        p matches Plan::Run(args) ==> args.len() > 0 && is_fixed_program(views(args@)[0]),
{
    let id = req.id;
    let ghost op = req.op;
    let p = match req.op {
        Op::Build { target, jobs } => Plan::Run(build_cmd(opt_as_str(&target), jobs)),
        Op::Clean => Plan::Run(clean_cmd()),
        Op::Check { tool } => Plan::Run(check_cmd(tool.as_str())),
        Op::Disassemble { file, offset, length } => Plan::Run(disassemble_cmd(file.as_str(), offset, length)),
        Op::HexDump { file, offset, length } => Plan::Run(hexdump_cmd(file.as_str(), offset, length)),
        Op::Grep { pattern, path, recursive } => {
            let rec = match recursive {
                Some(b) => b,
                None => true,
            };
            Plan::Run(grep_cmd(pattern.as_str(), opt_as_str(&path), rec))
        },
        Op::GitStatus => {
            let args = vec![string_from("git"), string_from("status"), string_from("--short")];
            assert(views(args@) =~= seq!["git"@, "status"@, "--short"@]);
            Plan::Run(args)
        },
        Op::GitDiff { file } => {
            let mut args = vec![string_from("git"), string_from("diff")];
            let ghost fv = opt_view(file);
            if let Some(f) = file {
                args.push(f);
            }
            assert(views(args@) =~= seq!["git"@, "diff"@] + opt_arg(fv));
            Plan::Run(args)
        },
        Op::ListOps => Plan::Reply(
            Response {
                id: string_from(id.as_str()),
                ok: true,
                stdout: Some(list_ops()),
                stderr: None,
                exit_code: 0,
                error: None,
            },
        ),
    };
    proof {
        if let Plan::Run(ref args) = p {
            let a = views(args@);
            assert(args.len() == a.len());
            match op {
                Op::Build { .. } | Op::Clean => assert(a[0] == "make"@),
                Op::Check { .. } => assert(a[0] == "which"@),
                Op::Disassemble { .. } => assert(a[0] == "objdump"@),
                Op::HexDump { .. } => assert(a[0] == "xxd"@),
                Op::Grep { .. } => assert(a[0] == "rg"@),
                Op::GitStatus | Op::GitDiff { .. } => assert(a[0] == "git"@),
                Op::ListOps => {},
            }
        }
    }
    p
}

} // verus!

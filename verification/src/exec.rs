//! What running a command came to, as the answer to a request.
use vstd::prelude::*;
use crate::edits::prefixed;
use crate::protocol::{Response, is_consistent_response, is_error_response, is_success_response};

verus! {

/// The outcome of running a command: it could not be started, could not be
/// waited for, or finished with its (lossily decoded) output and its exit
/// status code (`None` when a signal ended it).
pub enum CommandOutcome {
    SpawnFailed(String),
    WaitFailed(String),
    Finished { stdout: String, stderr: String, exit_code: Option<i32> },
}

/// The exit code reported for a status: the code, or -1 without one.
pub open spec fn code_or_minus_one(c: Option<i32>) -> i32 {
    match c {
        Some(c) => c,
        None => -1i32,
    }
}

/// `r` answers request `id` whose command `program` went as `outcome`.
pub open spec fn command_answer(r: Response, id: Seq<char>, program: Seq<char>, outcome: CommandOutcome) -> bool {
    match outcome {
        CommandOutcome::SpawnFailed(e) => is_error_response(r, id, "failed to spawn "@ + program + ": "@ + e@),
        CommandOutcome::WaitFailed(e) => is_error_response(r, id, "failed to wait for "@ + program + ": "@ + e@),
        CommandOutcome::Finished { stdout, stderr, exit_code } => is_success_response(
            r,
            id,
            stdout@,
            stderr@,
            code_or_minus_one(exit_code),
        ),
    }
}

/// The answer to a request whose command is `program`, given how running
/// it went.
pub fn command_response(id: &str, program: &str, outcome: CommandOutcome) -> (r: Response)
    ensures
        command_answer(r, id@, program@, outcome),
        is_consistent_response(r),
{
    match outcome {
        CommandOutcome::SpawnFailed(e) => {
            let head = prefixed("failed to spawn ", program);
            let head = prefixed(head.as_str(), ": ");
            Response::err(id, prefixed(head.as_str(), e.as_str()).as_str())
        },
        CommandOutcome::WaitFailed(e) => {
            let head = prefixed("failed to wait for ", program);
            let head = prefixed(head.as_str(), ": ");
            Response::err(id, prefixed(head.as_str(), e.as_str()).as_str())
        },
        CommandOutcome::Finished { stdout, stderr, exit_code } => {
            let code = match exit_code {
                Some(c) => c,
                None => -1i32,
            };
            Response::success(id, stdout, stderr, code)
        },
    }
}

/// The answer to a request whose argv is empty.
pub fn empty_command(id: &str) -> (r: Response)
    ensures
        is_error_response(r, id@, "empty command"@),
{
    Response::err(id, "empty command")
}

} // verus!

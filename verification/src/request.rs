//! Carrying one request through to its answer: the agent's decisions from
//! the request to the reply, with the runner doing each step it asks for
//! (running a command, reading or writing a file) and reporting back.
use vstd::prelude::*;
use crate::dispatch::{Plan, dispatch, dispatch_plan, dispatchable, opt_view};
use crate::edits::{
    EditAction, EditEvent, EditStage, InstructionEdit, edit_next, edit_start, edit_step,
    is_read_response, is_write_response, read_bytes_response, write_bytes_response,
};
use crate::exec::{CommandOutcome, command_answer, command_response};
use crate::ops::read_instruction_argv;
use crate::protocol::{Arch, Op, Request, Response, is_consistent_response};
use crate::targets::{list_targets, list_targets_response};
use crate::text::{string_from, views};

verus! {

/// How far a request has got.
pub enum Progress {
    /// Its command (running `program`) is running; how it goes answers it.
    Command { program: String },
    /// `make -pRrq` is dumping its database; the targets answer it.
    Listing,
    /// The bytes asked for are being read.
    Reading,
    /// The bytes given are being written.
    Writing,
    /// An instruction edit is under way; `program` is what its last
    /// command runs.
    Editing { edit: InstructionEdit, stage: EditStage, program: String },
    /// Answered.
    Done,
}

/// A request being carried out: its id, its working directory, and how far
/// it has got.
pub struct Turn {
    pub id: String,
    pub workdir: Option<String>,
    pub progress: Progress,
}

/// What the runner asks for next.
pub enum Step {
    /// Run `args` (program first) in `workdir` with `stdin` on its input
    /// (nothing when empty), and report how it went.
    Run { args: Vec<String>, workdir: Option<String>, stdin: String },
    /// Read `length` bytes of `file` at `offset`.
    ReadBytes { file: String, offset: u32, length: u32 },
    /// Delete the files in `remove` (ignoring failures), then write `bytes`
    /// into `file` at `offset`.
    WriteBytes { remove: Vec<String>, file: String, offset: u32, bytes: Vec<u8> },
    /// Find the size in bytes of the file at `path`.
    Measure { path: String },
    /// Read the whole file at `path`.
    ReadFile { path: String },
    /// Delete the files in `remove` (ignoring failures), then answer
    /// `response`.
    Answer { remove: Vec<String>, response: Response },
}

/// What came of the last step.
pub enum Outcome {
    Ran(CommandOutcome),
    Read(Result<Vec<u8>, String>),
    Measured(Result<u64, String>),
    Wrote(Result<(), String>),
}

/// The argv that dumps make's database for `file`.
pub open spec fn make_db_argv(file: Seq<char>) -> Seq<Seq<char>> {
    seq!["make"@, "-pRrq"@, "-f"@, file]
}

/// `s` runs `argv` in working directory `wd` with `input` on stdin.
pub open spec fn runs_in(s: Step, argv: Seq<Seq<char>>, wd: Option<Seq<char>>, input: Seq<char>) -> bool {
    s matches Step::Run { args, workdir, stdin } && views(args@) == argv && opt_view(workdir) == wd
        && stdin@ == input
}

/// `s` answers with a response that `p` holds of, deleting nothing.
pub open spec fn answers_with(s: Step, p: spec_fn(Response) -> bool) -> bool {
    s matches Step::Answer { remove, response } && remove.len() == 0 && p(response)
}

/// The edit carried in a turn is the request's own.
pub open spec fn turn_ok(t: Turn) -> bool {
    t.progress matches Progress::Editing { edit, .. } ==> edit.id@ == t.id@
}

/// The first stage and step of a request whose id, working directory and
/// plan are these.
pub open spec fn begins(id: Seq<char>, wd: Option<Seq<char>>, p: Plan, t: Turn, s: Step) -> bool {
    &&& t.id@ == id
    &&& opt_view(t.workdir) == wd
    &&& match p {
        Plan::Reply(r) => t.progress is Done && answers_with(s, |x: Response| x == r),
        Plan::Run(args) => (t.progress matches Progress::Command { program } && args.len() > 0
            && program@ == args@[0]@) && runs_in(s, views(args@), wd, seq![]),
        Plan::ListTargets(f) => t.progress is Listing && runs_in(s, make_db_argv(f@), wd, seq![]),
        Plan::ReadBytes { file, offset, length } => t.progress is Reading && (s matches Step::ReadBytes {
            file: f,
            offset: o,
            length: l,
        } && f@ == file@ && o == offset && l == length),
        Plan::WriteBytes { file, offset, bytes } => t.progress is Writing && (s matches Step::WriteBytes {
            remove,
            file: f,
            offset: o,
            bytes: b,
        } && remove.len() == 0 && f@ == file@ && o == offset && b@ == bytes@),
        Plan::WriteInstruction(e) => (t.progress matches Progress::Editing { edit, stage, program }
            && edit == e && stage is Disassembling && program@ == "arm-none-eabi-objdump"@) && runs_in(
            s,
            read_instruction_argv(e.file@, e.offset),
            wd,
            seq![],
        ),
    }
}

/// The edit event that a step's outcome amounts to, for an edit whose last
/// command runs `program` in request `id`.
pub open spec fn edit_event_of(eev: EditEvent, ev: Outcome, id: Seq<char>, program: Seq<char>) -> bool {
    match (eev, ev) {
        (EditEvent::Ran(r), Outcome::Ran(o)) => command_answer(r, id, program, o),
        (EditEvent::Measured(a), Outcome::Measured(b)) => a == b,
        (EditEvent::ReadDone(a), Outcome::Read(b)) => a == b,
        (EditEvent::Wrote(a), Outcome::Wrote(b)) => a == b,
        _ => false,
    }
}

/// The edit's action `a`, moving it to `next`, as the turn's next progress
/// and step.
pub open spec fn mirrors(e: InstructionEdit, next: EditStage, a: EditAction, wd: Option<Seq<char>>, p2: Progress, s: Step) -> bool {
    let editing = p2 matches Progress::Editing { edit, stage, .. } && edit == e && stage == next;
    match a {
        EditAction::Run { args, stdin } => (p2 matches Progress::Editing { edit, stage, program } && edit
            == e && stage == next && args.len() > 0 && program@ == args@[0]@) && runs_in(
            s,
            views(args@),
            wd,
            stdin@,
        ),
        EditAction::Measure { path } => editing && (s matches Step::Measure { path: q } && q@ == path@),
        EditAction::ReadFile { path } => editing && (s matches Step::ReadFile { path: q } && q@ == path@),
        EditAction::WriteBytes { remove, file, offset, bytes } => editing && (s matches Step::WriteBytes {
            remove: r,
            file: f,
            offset: o,
            bytes: b,
        } && views(r@) == views(remove@) && f@ == file@ && o == offset && b@ == bytes@),
        EditAction::Finish { remove, response } => p2 is Done && (s matches Step::Answer {
            remove: r,
            response: x,
        } && views(r@) == views(remove@) && x == response),
    }
}

/// The outcome fits the step the turn asked for.
pub open spec fn outcome_fits(p: Progress, ev: Outcome) -> bool {
    match p {
        Progress::Command { .. } | Progress::Listing => ev is Ran,
        Progress::Reading => ev is Read,
        Progress::Writing => ev is Wrote,
        Progress::Editing { stage, .. } => match stage {
            EditStage::Disassembling | EditStage::Assembling { .. } | EditStage::Extracting { .. } =>
                ev is Ran,
            EditStage::Measuring { .. } => ev is Measured,
            EditStage::Reading => ev is Read,
            EditStage::Writing => ev is Wrote,
            EditStage::Done => false,
        },
        Progress::Done => false,
    }
}

/// The step a turn takes on an outcome.
pub open spec fn advances(t: Turn, ev: Outcome, t2: Turn, s: Step) -> bool {
    let id = t.id@;
    let wd = opt_view(t.workdir);
    &&& t2.id@ == id
    &&& opt_view(t2.workdir) == wd
    &&& match (t.progress, ev) {
        (Progress::Command { program }, Outcome::Ran(o)) => t2.progress is Done && answers_with(
            s,
            |r: Response| command_answer(r, id, program@, o),
        ),
        (Progress::Listing, Outcome::Ran(o)) => t2.progress is Done && answers_with(
            s,
            |r: Response| list_targets_response(r, id, o),
        ),
        (Progress::Reading, Outcome::Read(rd)) => t2.progress is Done && answers_with(
            s,
            |r: Response| is_read_response(r, id, rd),
        ),
        (Progress::Writing, Outcome::Wrote(w)) => t2.progress is Done && answers_with(
            s,
            |r: Response| is_write_response(r, id, w),
        ),
        (Progress::Editing { edit, stage, program }, ev) => exists|eev: EditEvent, next: EditStage, a: EditAction|
            #![trigger edit_step(edit, stage, eev, next, a)]
            edit_event_of(eev, ev, id, program@) && edit_step(edit, stage, eev, next, a) && mirrors(
                edit,
                next,
                a,
                wd,
                t2.progress,
                s,
            ),
        _ => false,
    }
}

/// A copy of an optional string.
fn copy_opt(o: &Option<String>) -> (r: Option<String>)
    ensures
        opt_view(r) == opt_view(*o),
{
    match o {
        Some(s) => Some(string_from(s.as_str())),
        None => None,
    }
}

/// The edit's next stage and action as the turn's progress and step.
fn mirror(edit: InstructionEdit, next: EditStage, a: EditAction, workdir: Option<String>) -> (r: (Progress, Step))
    requires
        a matches EditAction::Run { args, .. } ==> args.len() > 0,
    ensures
        mirrors(edit, next, a, opt_view(workdir), r.0, r.1),
{
    match a {
        EditAction::Run { args, stdin } => {
            let program = string_from(args[0].as_str());
            (Progress::Editing { edit, stage: next, program }, Step::Run { args, workdir, stdin })
        },
        EditAction::Measure { path } => (Progress::Editing { edit, stage: next, program: String::new() }, Step::Measure { path }),
        EditAction::ReadFile { path } => (Progress::Editing { edit, stage: next, program: String::new() }, Step::ReadFile { path }),
        EditAction::WriteBytes { remove, file, offset, bytes } => (
            Progress::Editing { edit, stage: next, program: String::new() },
            Step::WriteBytes { remove, file, offset, bytes },
        ),
        EditAction::Finish { remove, response } => (Progress::Done, Step::Answer { remove, response }),
    }
}

/// Starts carrying out `req`: decides what to do about it and asks for the
/// first step. Commands run in the request's working directory, and an
/// immediate answer carries the request's id.
pub fn start(req: Request) -> (r: (Turn, Step))
    requires
        dispatchable(req),
    ensures
        exists|p: Plan| #![trigger dispatch_plan(req, p)]
            dispatch_plan(req, p) && begins(req.id@, opt_view(req.workdir), p, r.0, r.1),
        turn_ok(r.0),
        r.1 matches Step::Run { workdir, .. } ==> opt_view(workdir) == opt_view(req.workdir),
        r.1 matches Step::Answer { response, .. } ==> response.id@ == req.id@ && is_consistent_response(
            response,
        ),
{
    let id = string_from(req.id.as_str());
    let workdir = copy_opt(&req.workdir);
    let ghost wd = opt_view(req.workdir);
    let ghost req0 = req;
    let plan = dispatch(req);
    let ghost gp = plan;
    let r = match plan {
        Plan::Reply(response) => (
            Turn { id, workdir, progress: Progress::Done },
            Step::Answer { remove: Vec::new(), response },
        ),
        Plan::Run(args) => {
            let program = string_from(args[0].as_str());
            (
                Turn { id, workdir: copy_opt(&workdir), progress: Progress::Command { program } },
                Step::Run { args, workdir, stdin: String::new() },
            )
        },
        Plan::ListTargets(file) => {
            let args = vec![
                string_from("make"),
                string_from("-pRrq"),
                string_from("-f"),
                string_from(file.as_str()),
            ];
            assert(views(args@) =~= make_db_argv(file@));
            (
                Turn { id, workdir: copy_opt(&workdir), progress: Progress::Listing },
                Step::Run { args, workdir, stdin: String::new() },
            )
        },
        Plan::ReadBytes { file, offset, length } => (
            Turn { id, workdir, progress: Progress::Reading },
            Step::ReadBytes { file, offset, length },
        ),
        Plan::WriteBytes { file, offset, bytes } => (
            Turn { id, workdir, progress: Progress::Writing },
            Step::WriteBytes { remove: Vec::new(), file, offset, bytes },
        ),
        Plan::WriteInstruction(edit) => {
            assert(req0.op matches Op::WriteInstruction { offset, arch, .. } && arch == Arch::Thumb
                && edit.offset == offset);
            let (stage, action) = edit_start(&edit);
            let program = string_from("arm-none-eabi-objdump");
            match action {
                EditAction::Run { args, stdin } => (
                    Turn {
                        id,
                        workdir: copy_opt(&workdir),
                        progress: Progress::Editing { edit, stage, program },
                    },
                    Step::Run { args, workdir, stdin },
                ),
                _ => {
                    assert(false);
                    (Turn { id, workdir, progress: Progress::Done }, Step::Answer { remove: Vec::new(), response: Response::err("", "") })
                },
            }
        },
    };
    proof {
        reveal_strlit("");
    }
    assert(begins(req0.id@, wd, gp, r.0, r.1));
    r
}

/// The turn's next progress and step, given what came of the last step.
/// Commands run in the request's working directory; every answer carries
/// the request's id, and every answer but a target listing (which is `ok`
/// even when make exits with 2) is consistent.
pub fn next(t: Turn, ev: Outcome) -> (r: (Turn, Step))
    requires
        turn_ok(t),
        outcome_fits(t.progress, ev),
    ensures
        advances(t, ev, r.0, r.1),
        turn_ok(r.0),
        r.1 matches Step::Run { workdir, .. } ==> opt_view(workdir) == opt_view(t.workdir),
        r.1 matches Step::Answer { response, .. } ==> response.id@ == t.id@ && (!(t.progress is Listing)
            ==> is_consistent_response(response)),
{
    let Turn { id, workdir, progress } = t;
    match (progress, ev) {
        (Progress::Command { program }, Outcome::Ran(o)) => {
            let response = command_response(id.as_str(), program.as_str(), o);
            (Turn { id, workdir, progress: Progress::Done }, Step::Answer { remove: Vec::new(), response })
        },
        (Progress::Listing, Outcome::Ran(o)) => {
            let response = list_targets(id.as_str(), o);
            (Turn { id, workdir, progress: Progress::Done }, Step::Answer { remove: Vec::new(), response })
        },
        (Progress::Reading, Outcome::Read(rd)) => {
            let response = read_bytes_response(id.as_str(), rd);
            (Turn { id, workdir, progress: Progress::Done }, Step::Answer { remove: Vec::new(), response })
        },
        (Progress::Writing, Outcome::Wrote(w)) => {
            let response = write_bytes_response(id.as_str(), w);
            (Turn { id, workdir, progress: Progress::Done }, Step::Answer { remove: Vec::new(), response })
        },
        (Progress::Editing { edit, stage, program }, ev) => {
            let ghost ev0 = ev;
            let eev = match ev {
                Outcome::Ran(o) => EditEvent::Ran(command_response(id.as_str(), program.as_str(), o)),
                Outcome::Measured(m) => EditEvent::Measured(m),
                Outcome::Read(rd) => EditEvent::ReadDone(rd),
                Outcome::Wrote(w) => EditEvent::Wrote(w),
            };
            let ghost geev = eev;
            assert(edit_event_of(geev, ev0, id@, program@));
            let (next_stage, action) = edit_next(&edit, stage, eev);
            let ghost ga = action;
            let ghost gn = next_stage;
            proof {
                lemma_edit_runs_something(edit, stage, geev, gn, ga);
            }
            let ghost gedit = edit;
            let (p2, s) = mirror(edit, next_stage, action, copy_opt(&workdir));
            assert(mirrors(gedit, gn, ga, opt_view(workdir), p2, s));
            (Turn { id, workdir, progress: p2 }, s)
        },
        _ => {
            assert(false);
            (Turn { id, workdir, progress: Progress::Done }, Step::Answer { remove: Vec::new(), response: Response::err("", "") })
        },
    }
}

/// Every command an edit asks for runs some program.
proof fn lemma_edit_runs_something(e: InstructionEdit, stage: EditStage, ev: EditEvent, next: EditStage, a: EditAction)
    requires
        edit_step(e, stage, ev, next, a),
    ensures
        a matches EditAction::Run { args, .. } ==> args.len() > 0,
{
    if let EditAction::Run { args, .. } = a {
        assert(views(args@).len() == args.len());
    }
}

} // verus!

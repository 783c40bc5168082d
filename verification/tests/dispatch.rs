use romhack::dispatch::{dispatch, Plan};
use romhack::edits::{edit_next, edit_start, EditAction, EditEvent, EditStage, InstructionEdit};
use romhack::exec::CommandOutcome;
use romhack::protocol::{Arch, Op, PatchFormat, Request, Response};
use romhack::request::{next, start, Outcome, Step};

fn make_req(op: Op) -> Request {
    Request { id: "test-id".into(), workdir: None, op }
}

/// The agent's answer when the planned command finished with `exit_code`
/// (how the runner reports a finished command), with the argv it ran and
/// the working directory it ran in, or the reply it gives at once.
fn answer(req: Request, exit_code: i32) -> (Option<Vec<String>>, Option<String>, Response) {
    let (turn, step) = start(req);
    match step {
        Step::Answer { response, .. } => (None, None, response),
        Step::Run { args, workdir, .. } => {
            let outcome = CommandOutcome::Finished {
                stdout: String::new(),
                stderr: String::new(),
                exit_code: Some(exit_code),
            };
            match next(turn, Outcome::Ran(outcome)) {
                (_, Step::Answer { response, .. }) => (Some(args), workdir, response),
                _ => panic!("a finished command is answered"),
            }
        }
        _ => panic!("not a command"),
    }
}

#[test]
fn list_ops_returns_ok() {
    let (_, _, resp) = answer(make_req(Op::ListOps), 0);
    assert!(resp.ok);
    assert_eq!(resp.exit_code, 0);
    let stdout = resp.stdout.unwrap();
    for op in &["build", "clean", "check", "disassemble", "hex_dump", "grep", "git_status", "git_diff", "list_ops"] {
        assert!(stdout.contains(op), "missing: {op}");
    }
}

#[test]
fn git_diff_no_file() {
    let (args, _, resp) = answer(make_req(Op::GitDiff { file: None }), 0);
    assert_eq!(args.unwrap(), vec!["git", "diff"]);
    assert_eq!(resp.id, "test-id");
}

#[test]
fn git_diff_with_file() {
    let (args, _, resp) = answer(make_req(Op::GitDiff { file: Some("src/main.rs".into()) }), 1);
    assert_eq!(args.unwrap(), vec!["git", "diff", "src/main.rs"]);
    assert_eq!(resp.id, "test-id");
}

#[test]
fn workdir_is_forwarded() {
    let req = Request {
        id: "wd-test".into(),
        workdir: Some("/tmp".into()),
        op: Op::Check { tool: "true".into() },
    };
    let (args, workdir, resp) = answer(req, 0);
    assert_eq!(args.unwrap(), vec!["which", "true"]);
    assert_eq!(workdir.as_deref(), Some("/tmp"));
    assert!(resp.ok);
    assert_eq!(resp.id, "wd-test");
}

#[test]
fn check_real_tool_succeeds() {
    let (args, _, resp) = answer(make_req(Op::Check { tool: "true".into() }), 0);
    assert_eq!(args.unwrap(), vec!["which", "true"]);
    assert!(resp.ok);
    assert_eq!(resp.exit_code, 0);
}

#[test]
fn check_missing_tool_fails() {
    let (args, _, resp) =
        answer(make_req(Op::Check { tool: "definitely_not_a_real_binary_xyzzy_12345".into() }), 1);
    assert_eq!(args.unwrap()[1], "definitely_not_a_real_binary_xyzzy_12345");
    assert!(!resp.ok);
    assert_ne!(resp.exit_code, 0);
}

// ── Further cases ────────────────────────────────────────────────────────────

fn run_args(p: Plan) -> Vec<String> {
    match p {
        Plan::Run(a) => a,
        _ => panic!("expected a command"),
    }
}

fn reply(p: Plan) -> Response {
    match p {
        Plan::Reply(r) => r,
        _ => panic!("expected a reply"),
    }
}

#[test]
fn plans_fixed_commands() {
    assert_eq!(run_args(dispatch(make_req(Op::GitStatus))), vec!["git", "status", "--short"]);
    assert_eq!(
        run_args(dispatch(make_req(Op::Grep { pattern: "x".into(), path: None, recursive: None }))),
        vec!["rg", "--color=never", "x"]
    );
    assert_eq!(
        run_args(dispatch(make_req(Op::Build { target: Some("rm -rf /".into()), jobs: None }))),
        vec!["make", "rm -rf /"]
    );
}

#[test]
fn bps_is_refused() {
    let r = reply(dispatch(make_req(Op::GeneratePatch {
        original: "a".into(),
        modified: "b".into(),
        output: "c".into(),
        format: PatchFormat::Bps,
    })));
    assert_eq!(r.error.as_deref(), Some("BPS format not yet implemented"));
    assert_eq!(r.id, "test-id");
    let args = run_args(dispatch(make_req(Op::ApplyPatch {
        rom: "r".into(),
        patch: "p".into(),
        output: "o".into(),
        format: PatchFormat::Ips,
    })));
    assert_eq!(args, vec!["flips", "--apply", "--ips", "p", "r", "o"]);
}

#[test]
fn write_bytes_decodes_hex() {
    match dispatch(make_req(Op::WriteBytes { file: "f".into(), offset: 3, bytes: " deadBEEF\n".into() })) {
        Plan::WriteBytes { file, offset, bytes } => {
            assert_eq!(file, "f");
            assert_eq!(offset, 3);
            assert_eq!(bytes, vec![0xde, 0xad, 0xbe, 0xef]);
        }
        _ => panic!("expected a write"),
    }
    let r = reply(dispatch(make_req(Op::WriteBytes { file: "f".into(), offset: 0, bytes: "abc".into() })));
    assert_eq!(r.error.as_deref(), Some("invalid hex string: odd number of hex digits"));
    let r = reply(dispatch(make_req(Op::WriteBytes { file: "f".into(), offset: 0, bytes: "zz".into() })));
    assert_eq!(r.error.as_deref(), Some("invalid hex string: invalid digit found in string"));
}

#[test]
fn instruction_ops_need_thumb() {
    let r = reply(dispatch(make_req(Op::WriteInstruction {
        file: "f".into(),
        offset: 0,
        arch: Arch::Mos6502,
        instruction: "nop".into(),
    })));
    assert_eq!(r.error.as_deref(), Some("arch Mos6502 not yet implemented"));
    match dispatch(make_req(Op::ReadInstruction { file: "f".into(), offset: 0, arch: Arch::Arm32 })) {
        Plan::Reply(r) => assert_eq!(r.error.as_deref(), Some("arch Arm32 not yet implemented")),
        _ => panic!("expected a reply"),
    }
}

#[test]
fn list_targets_defaults_to_makefile() {
    match dispatch(make_req(Op::ListTargets { file: None })) {
        Plan::ListTargets(f) => assert_eq!(f, "Makefile"),
        _ => panic!("expected a listing"),
    }
}

fn edit() -> InstructionEdit {
    InstructionEdit {
        id: "e1".into(),
        file: "rom.gba".into(),
        offset: 0x100,
        instruction: "nop".into(),
    }
}

fn ran(stdout: &str) -> EditEvent {
    EditEvent::Ran(Response::success("e1", stdout.into(), String::new(), 0))
}

#[test]
fn edit_writes_when_sizes_match() {
    let e = edit();
    let (stage, action) = edit_start(&e);
    match action {
        EditAction::Run { args, stdin } => {
            assert_eq!(args[0], "arm-none-eabi-objdump");
            assert!(stdin.is_empty());
        }
        _ => panic!("expected disassembly"),
    }
    let (stage, action) = edit_next(&e, stage, ran("   100:\t00 bf      \tnop\n"));
    match &action {
        EditAction::Run { args, stdin } => {
            assert_eq!(args, &vec!["arm-none-eabi-as", "-mthumb", "-o", "/tmp/gami_e1.o", "-"]);
            assert_eq!(stdin, "\tnop\n");
        }
        _ => panic!("expected assembly"),
    }
    let (stage, action) = edit_next(&e, stage, ran(""));
    match &action {
        EditAction::Run { args, .. } => assert_eq!(args.last().unwrap(), "/tmp/gami_e1.bin"),
        _ => panic!("expected objcopy"),
    }
    let (stage, action) = edit_next(&e, stage, ran(""));
    match &action {
        EditAction::Measure { path } => assert_eq!(path, "/tmp/gami_e1.bin"),
        _ => panic!("expected a measurement"),
    }
    let (stage, action) = edit_next(&e, stage, EditEvent::Measured(Ok(2)));
    assert!(matches!(action, EditAction::ReadFile { .. }));
    let (stage, action) = edit_next(&e, stage, EditEvent::ReadDone(Ok(vec![0x00, 0xbf])));
    match &action {
        EditAction::WriteBytes { remove, file, offset, bytes } => {
            assert_eq!(remove, &vec!["/tmp/gami_e1.o", "/tmp/gami_e1.bin"]);
            assert_eq!(file, "rom.gba");
            assert_eq!(*offset, 0x100);
            assert_eq!(bytes, &vec![0x00, 0xbf]);
        }
        _ => panic!("expected a write"),
    }
    let (stage, action) = edit_next(&e, stage, EditEvent::Wrote(Ok(())));
    assert!(matches!(stage, EditStage::Done));
    match action {
        EditAction::Finish { response, .. } => {
            assert!(response.ok);
            assert_eq!(response.id, "e1");
        }
        _ => panic!("expected the end"),
    }
}

#[test]
fn edit_refuses_size_mismatch() {
    let e = edit();
    let (stage, _) = edit_start(&e);
    let (stage, _) = edit_next(&e, stage, ran("   100:\t00 bf      \tnop\n"));
    let (stage, _) = edit_next(&e, stage, ran(""));
    let (stage, _) = edit_next(&e, stage, ran(""));
    let (stage, action) = edit_next(&e, stage, EditEvent::Measured(Ok(4)));
    assert!(matches!(stage, EditStage::Done));
    match action {
        EditAction::Finish { remove, response } => {
            assert_eq!(remove.len(), 2);
            assert_eq!(response.exit_code, -2);
            assert!(!response.ok);
            assert_eq!(
                response.error.as_deref(),
                Some("{\"kind\":\"size_mismatch\",\"existing_bytes\":2,\"new_bytes\":4}")
            );
        }
        _ => panic!("expected the end"),
    }
}

#[test]
fn edit_stops_on_unparsable_disassembly() {
    let e = edit();
    let (stage, _) = edit_start(&e);
    let (_, action) = edit_next(&e, stage, ran("nothing here"));
    match action {
        EditAction::Finish { response, .. } => assert_eq!(
            response.error.as_deref(),
            Some("failed to parse objdump output for existing instruction")
        ),
        _ => panic!("expected the end"),
    }
}

#[test]
fn non_thumb_read_instruction_at_top_offset_is_refused() {
    match dispatch(make_req(Op::ReadInstruction { file: "f".into(), offset: u32::MAX, arch: Arch::Mips32 })) {
        Plan::Reply(r) => {
            assert_eq!(r.id, "test-id");
            assert!(!r.ok);
            assert_eq!(r.exit_code, -1);
            assert_eq!(r.error.as_deref(), Some("arch Mips32 not yet implemented"));
        }
        _ => panic!("expected a reply"),
    }
}

#[test]
fn replies_are_consistent() {
    for op in [
        Op::ListOps,
        Op::GeneratePatch {
            original: "a".into(),
            modified: "b".into(),
            output: "c".into(),
            format: PatchFormat::Bps,
        },
        Op::WriteBytes { file: "f".into(), offset: 0, bytes: "abc".into() },
    ] {
        match dispatch(make_req(op)) {
            Plan::Reply(r) => {
                assert_eq!(r.ok, r.exit_code == 0 && r.error.is_none());
                if r.error.is_some() {
                    assert!(r.stdout.is_none() && r.stderr.is_none());
                }
            }
            _ => panic!("expected a reply"),
        }
    }
}

fn finished(stdout: &str, exit_code: i32) -> Outcome {
    Outcome::Ran(CommandOutcome::Finished { stdout: stdout.into(), stderr: String::new(), exit_code: Some(exit_code) })
}

#[test]
fn listing_runs_make_in_the_workdir_and_accepts_exit_two() {
    let req = Request { id: "lt".into(), workdir: Some("/w".into()), op: Op::ListTargets { file: None } };
    let (turn, step) = start(req);
    match step {
        Step::Run { args, workdir, stdin } => {
            assert_eq!(args, vec!["make", "-pRrq", "-f", "Makefile"]);
            assert_eq!(workdir.as_deref(), Some("/w"));
            assert!(stdin.is_empty());
        }
        _ => panic!("expected make"),
    }
    match next(turn, finished("b:\na:\n", 2)) {
        (_, Step::Answer { response, .. }) => {
            assert_eq!(response.id, "lt");
            assert!(response.ok);
            assert_eq!(response.exit_code, 2);
            assert_eq!(response.stdout.as_deref(), Some("a\nb"));
        }
        _ => panic!("expected an answer"),
    }
}

#[test]
fn read_bytes_turn_answers_hex() {
    let (turn, step) = start(make_req(Op::ReadBytes { file: "rom".into(), offset: 4, length: 2 }));
    assert!(matches!(step, Step::ReadBytes { ref file, offset: 4, length: 2 } if file == "rom"));
    match next(turn, Outcome::Read(Ok(vec![0xab, 0x01]))) {
        (_, Step::Answer { response, .. }) => {
            assert_eq!(response.id, "test-id");
            assert_eq!(response.stdout.as_deref(), Some("ab01"));
        }
        _ => panic!("expected an answer"),
    }
}

#[test]
fn instruction_edit_turn_runs_in_workdir_and_reports_size_mismatch() {
    let req = Request {
        id: "ed".into(),
        workdir: Some("/w".into()),
        op: Op::WriteInstruction { file: "rom.gba".into(), offset: 0x10, arch: Arch::Thumb, instruction: "bl 0x100".into() },
    };
    let (turn, step) = start(req);
    match &step {
        Step::Run { args, workdir, .. } => {
            assert_eq!(args[0], "arm-none-eabi-objdump");
            assert_eq!(workdir.as_deref(), Some("/w"));
        }
        _ => panic!("expected objdump"),
    }
    let (turn, step) = next(turn, finished("      10:\t70 47       \tbx\tlr\n", 0));
    match &step {
        Step::Run { args, workdir, stdin } => {
            assert_eq!(args[0], "arm-none-eabi-as");
            assert_eq!(workdir.as_deref(), Some("/w"));
            assert_eq!(stdin, "\tbl 0x100\n");
        }
        _ => panic!("expected the assembler"),
    }
    let (turn, step) = next(turn, finished("", 0));
    assert!(matches!(step, Step::Run { .. }));
    let (turn, step) = next(turn, finished("", 0));
    assert!(matches!(step, Step::Measure { .. }));
    match next(turn, Outcome::Measured(Ok(4))) {
        (_, Step::Answer { remove, response }) => {
            assert_eq!(remove, vec!["/tmp/gami_ed.o", "/tmp/gami_ed.bin"]);
            assert_eq!(response.id, "ed");
            assert_eq!(response.exit_code, -2);
            assert!(!response.ok);
        }
        _ => panic!("expected the mismatch answer"),
    }
}

use romhack::agent::{dispatch, grep_cmd, list_ops, Op, Plan, Request};

fn req(op: Op) -> Request {
    Request { id: "a1".into(), workdir: None, op }
}

#[test]
fn agent_grep_is_recursive_flag() {
    assert_eq!(grep_cmd("main", None, true), vec!["rg", "--color=never", "-r", "main"]);
    assert_eq!(grep_cmd("main", Some("src"), false), vec!["rg", "--color=never", "main", "src"]);
}

#[test]
fn agent_lists_its_ops() {
    assert_eq!(list_ops(), "build, clean, check, disassemble, hex_dump, grep, git_status, git_diff, list_ops");
    match dispatch(req(Op::ListOps)) {
        Plan::Reply(r) => {
            assert!(r.ok);
            assert_eq!(r.id, "a1");
            assert_eq!(r.stdout.unwrap(), list_ops());
        }
        Plan::Run(_) => panic!("expected a reply"),
    }
}

#[test]
fn agent_runs_fixed_commands() {
    match dispatch(req(Op::GitDiff { file: Some("a.c".into()) })) {
        Plan::Run(args) => assert_eq!(args, vec!["git", "diff", "a.c"]),
        Plan::Reply(_) => panic!("expected a command"),
    }
    match dispatch(req(Op::HexDump { file: "rom".into(), offset: Some(16), length: None })) {
        Plan::Run(args) => assert_eq!(args, vec!["xxd", "-s", "0x10", "rom"]),
        Plan::Reply(_) => panic!("expected a command"),
    }
}

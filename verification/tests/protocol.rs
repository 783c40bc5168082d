use romhack::edits::size_mismatch_text;
use romhack::exec::{command_response, empty_command, CommandOutcome};
use romhack::protocol::{Response, SizeMismatchError};

#[test]
fn response_success_exit_zero() {
    let r = Response::success("id1", "output".into(), "".into(), 0);
    assert!(r.ok);
    assert_eq!(r.exit_code, 0);
    assert_eq!(r.stdout.as_deref(), Some("output"));
    assert!(r.stderr.is_none());
    assert!(r.error.is_none());
}

#[test]
fn response_success_nonzero_exit() {
    let r = Response::success("id2", "".into(), "err".into(), 1);
    assert!(!r.ok);
    assert_eq!(r.exit_code, 1);
    assert_eq!(r.stderr.as_deref(), Some("err"));
}

#[test]
fn response_err() {
    let r = Response::err("id3", "spawn failed");
    assert!(!r.ok);
    assert_eq!(r.exit_code, -1);
    assert_eq!(r.error.as_deref(), Some("spawn failed"));
    assert!(r.stdout.is_none());
    assert!(r.stderr.is_none());
}

#[test]
fn size_mismatch_error_shape() {
    let e = SizeMismatchError::new(2, 4);
    assert_eq!(e.kind, "size_mismatch");
    assert_eq!(e.existing_bytes, 2);
    assert_eq!(e.new_bytes, 4);
    let json = size_mismatch_text(e.existing_bytes, e.new_bytes);
    assert!(json.contains("\"kind\":\"size_mismatch\""));
    assert!(json.contains("\"existing_bytes\":2"));
    assert!(json.contains("\"new_bytes\":4"));
}

// ── Further cases ────────────────────────────────────────────────────────────

#[test]
fn size_mismatch_json_exact() {
    assert_eq!(
        size_mismatch_text(2, 4294967295),
        "{\"kind\":\"size_mismatch\",\"existing_bytes\":2,\"new_bytes\":4294967295}"
    );
}

#[test]
fn command_outcomes() {
    let r = command_response("a", "make", CommandOutcome::SpawnFailed("No such file".into()));
    assert_eq!(r.error.as_deref(), Some("failed to spawn make: No such file"));
    assert_eq!(r.exit_code, -1);
    let r = command_response("b", "make", CommandOutcome::WaitFailed("broken".into()));
    assert_eq!(r.error.as_deref(), Some("failed to wait for make: broken"));
    let r = command_response(
        "c",
        "make",
        CommandOutcome::Finished { stdout: "o".into(), stderr: "".into(), exit_code: None },
    );
    assert_eq!(r.id, "c");
    assert_eq!(r.exit_code, -1);
    assert!(!r.ok);
    assert!(r.stderr.is_none());
    let r = empty_command("d");
    assert_eq!(r.error.as_deref(), Some("empty command"));
}

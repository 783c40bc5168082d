use romhack::edits::{read_bytes_response, write_bytes_response};
use romhack::hexcodec::{decode_hex, encode_hex};
use romhack::server::{debug_port_reply, default_source, op_output, parse_addr, targets_output};
use romhack::exec::CommandOutcome;
use romhack::protocol::Response;
use romhack::targets::list_targets;

#[test]
fn hex_roundtrip_on_every_byte() {
    let all: Vec<u8> = (0..=255).collect();
    let hex = encode_hex(&all);
    assert_eq!(&hex[..6], "000102");
    assert_eq!(&hex[hex.len() - 4..], "feff");
    assert_eq!(decode_hex(&hex).unwrap(), all);
}

#[test]
fn decode_hex_quirks() {
    assert_eq!(decode_hex("").unwrap(), Vec::<u8>::new());
    assert_eq!(decode_hex("+a0F").unwrap(), vec![0x0a, 0x0f]);
    assert_eq!(decode_hex("-a").unwrap_err(), "invalid digit found in string");
    assert_eq!(decode_hex("é").unwrap_err(), "invalid digit found in string");
    assert_eq!(decode_hex("abc").unwrap_err(), "odd number of hex digits");
}

#[test]
fn byte_responses() {
    let r = read_bytes_response("r", Ok(vec![0xde, 0xad]));
    assert_eq!(r.stdout.as_deref(), Some("dead"));
    assert!(r.ok);
    let r = read_bytes_response("r", Err("no such file".into()));
    assert_eq!(r.error.as_deref(), Some("read_bytes failed: no such file"));
    let r = write_bytes_response("w", Ok(()));
    assert!(r.ok && r.stdout.is_none());
    let r = write_bytes_response("w", Err("denied".into()));
    assert_eq!(r.error.as_deref(), Some("write_bytes failed: denied"));
}

#[test]
fn addresses_in_decimal_and_hex() {
    assert_eq!(parse_addr("0x08000000"), Ok(0x0800_0000));
    assert_eq!(parse_addr(" 0X1f "), Ok(0x1f));
    assert_eq!(parse_addr("4096"), Ok(4096));
    assert_eq!(parse_addr("+7"), Ok(7));
    assert_eq!(parse_addr("").unwrap_err(), "cannot parse integer from empty string");
    assert_eq!(parse_addr("0x").unwrap_err(), "cannot parse integer from empty string");
    assert_eq!(parse_addr("12ab").unwrap_err(), "invalid digit found in string");
    assert_eq!(parse_addr("4294967296").unwrap_err(), "number too large to fit in target type");
    assert_eq!(parse_addr("4294967295"), Ok(u32::MAX));
    assert_eq!(parse_addr(&format!("0x{:x}", 0xdead_beefu32)), Ok(0xdead_beef));
}

#[test]
fn default_annotation_source() {
    assert_eq!(default_source(), "user");
}

#[test]
fn run_op_output_text() {
    let r = Response::success("x", "built".into(), "warn".into(), 2);
    assert_eq!(op_output(&r), "built\n[stderr]\nwarn\n[exit code: 2]");
    let r = Response::success("x", "".into(), "".into(), 0);
    assert_eq!(op_output(&r), "(no output)");
    let r = Response::err("x", "boom");
    assert_eq!(op_output(&r), "[exit code: -1]\n[error] boom");
}

#[test]
fn build_targets_output_text() {
    let r = Response::success("x", "all\nclean".into(), "".into(), 2);
    assert_eq!(targets_output(&r), "all\nclean");
    let r = Response::err("x", "make missing");
    assert_eq!(targets_output(&r), "[error] make missing\n[exit -1]");
}

#[test]
fn list_targets_answers() {
    let r = list_targets(
        "t",
        CommandOutcome::Finished {
            stdout: "zeta:\nalpha: x\n.PHONY: zeta\n".into(),
            stderr: "".into(),
            exit_code: Some(2),
        },
    );
    assert!(r.ok);
    assert_eq!(r.exit_code, 2);
    assert_eq!(r.stdout.as_deref(), Some("alpha\nzeta"));
    assert!(r.stderr.is_none());
    let r = list_targets(
        "t",
        CommandOutcome::Finished { stdout: "".into(), stderr: "oops".into(), exit_code: None },
    );
    assert!(r.stdout.is_none());
    assert_eq!(r.stderr.as_deref(), Some("oops"));
    assert_eq!(r.exit_code, -1);
    let r = list_targets("t", CommandOutcome::SpawnFailed("not found".into()));
    assert!(!r.ok);
    assert_eq!(r.stderr.as_deref(), Some("make not found or failed to spawn: not found"));
    assert_eq!(r.error.as_deref(), Some("not found"));
}

#[test]
fn hex_text_roundtrip_lowercases() {
    let bytes = decode_hex("  DEadBEef\n").unwrap();
    assert_eq!(encode_hex(&bytes), "deadbeef");
}

#[test]
fn debug_port_replies() {
    assert_eq!(debug_port_reply("xbox", 2345, None), "Unknown platform: xbox");
    assert_eq!(
        debug_port_reply("ds", 2345, Some(CommandOutcome::SpawnFailed("no podman".into()))),
        "Failed to start debug session: no podman"
    );
    assert_eq!(
        debug_port_reply(
            "ds",
            2345,
            Some(CommandOutcome::Finished { stdout: String::new(), stderr: "bad".into(), exit_code: Some(125) })
        ),
        "Failed:\nbad"
    );
    assert_eq!(
        debug_port_reply(
            "ds",
            1234,
            Some(CommandOutcome::Finished { stdout: " abc123\n".into(), stderr: String::new(), exit_code: Some(0) })
        ),
        "Debug session started: abc123\nPort 1234 exposed on host.\nStart your emulator's GDB stub on port 1234, then from inside the container:\n  ./debug-connect.sh host.gateway.internal 1234"
    );
}

//! The MCP server's own logic: address arguments, default values, and the
//! text its tools answer with.
use vstd::prelude::*;
use crate::num::{IntErrorKind, dec, hex, digit_char, from_str_radix, int_error_message, push_dec, lemma_format_parse_roundtrip};
use crate::text::{is_ws, lemma_trim_fixed};
use crate::protocol::Response;
use crate::exec::CommandOutcome;
use crate::text::{
    append_chars, append_str, chars_of, cviews, join, join_chars, slice_chars, string_from, string_of,
    trim, trim_chars, views, has_part, lemma_join_has_part,
};

verus! {

/// What an address argument reads as: trimmed, then hex after a `0x` or
/// `0X` prefix, decimal otherwise.
pub open spec fn addr_value(s: Seq<char>) -> Result<u32, IntErrorKind> {
    let t = trim(s);
    if t.len() >= 2 && t[0] == '0' && (t[1] == 'x' || t[1] == 'X') {
        from_str_radix(t.skip(2), 16)
    } else {
        from_str_radix(t, 10)
    }
}

/// Parses an address given in decimal or as `0x` hex.
pub fn parse_addr(s: &str) -> (r: Result<u32, String>)
    ensures
        match addr_value(s@) {
            Ok(a) => r == Ok::<u32, String>(a),
            Err(k) => r matches Err(e) && e@ == int_error_message(k),
        },
{
    let raw = chars_of(s);
    let t = trim_chars(&raw);
    let parsed = if t.len() >= 2 && t[0] == '0' && (t[1] == 'x' || t[1] == 'X') {
        let digits = slice_chars(&t, 2, t.len());
        assert(digits@ =~= t@.skip(2));
        crate::num::parse_u32_radix(&digits, 16)
    } else {
        crate::num::parse_u32_radix(&t, 10)
    };
    match parsed {
        Ok(a) => Ok(a),
        Err(k) => Err(k.message()),
    }
}

/// The provenance of an annotation when none is given.
pub fn default_source() -> (r: String)
    ensures
        r@ == "user"@,
{
    string_from("user")
}

/// Decimal representation of a signed number.
pub open spec fn idec(n: int) -> Seq<char> {
    if n < 0 {
        seq!['-'] + dec((-n) as nat)
    } else {
        dec(n as nat)
    }
}

/// Appends the decimal representation of `n`.
pub fn push_i32(out: &mut Vec<char>, n: i32)
    ensures
        final(out)@ == old(out)@ + idec(n as int),
{
    if n < 0 {
        out.push('-');
        let m: u32 = (-(n as i64)) as u32;
        push_dec(out, m);
        assert(final(out)@ =~= old(out)@ + idec(n as int));
    } else {
        push_dec(out, n as u32);
    }
}

/// The parts of a command's answer that the run-op tool shows: the stdout
/// when not empty, the stderr after a `[stderr]` line, the exit code when
/// the command failed, and the error.
pub open spec fn op_output_parts(r: Response) -> Seq<Seq<char>> {
    (match r.stdout {
        Some(o) => if o@.len() > 0 {
            seq![o@]
        } else {
            seq![]
        },
        None => seq![],
    }) + (match r.stderr {
        Some(e) => seq!["[stderr]\n"@ + e@],
        None => seq![],
    }) + (if !r.ok {
        seq!["[exit code: "@ + idec(r.exit_code as int) + "]"@]
    } else {
        seq![]
    }) + (match r.error {
        Some(e) => seq!["[error] "@ + e@],
        None => seq![],
    })
}

/// The text the run-op tool answers with: the parts on lines of their own,
/// or `(no output)`.
pub open spec fn op_output_text(r: Response) -> Seq<char> {
    if op_output_parts(r).len() == 0 {
        "(no output)"@
    } else {
        join(op_output_parts(r), "\n"@)
    }
}

fn push_part(parts: &mut Vec<Vec<char>>, prefix: &str, body: &str, suffix: &str)
    ensures
        cviews(final(parts)@) == cviews(old(parts)@).push(prefix@ + body@ + suffix@),
{
    let mut v: Vec<char> = Vec::new();
    append_str(&mut v, prefix);
    append_str(&mut v, body);
    append_str(&mut v, suffix);
    let ghost before = cviews(parts@);
    let ghost vv = v@;
    parts.push(v);
    assert(cviews(parts@) =~= before.push(vv));
}

/// Summarizes a command's answer for the run-op tool.
pub fn op_output(r: &Response) -> (t: String)
    ensures
        t@ == op_output_text(*r),
{
    proof {
        reveal_strlit("");
    }
    let mut parts: Vec<Vec<char>> = Vec::new();
    let ghost p0 = cviews(parts@);
    if let Some(o) = &r.stdout {
        if !o.as_str().is_empty() {
            push_part(&mut parts, "", o.as_str(), "");
            assert(""@ + o@ + ""@ =~= o@);
        }
    }
    let ghost p1 = cviews(parts@);
    if let Some(e) = &r.stderr {
        push_part(&mut parts, "[stderr]\n", e.as_str(), "");
        assert("[stderr]\n"@ + e@ + ""@ =~= "[stderr]\n"@ + e@);
    }
    let ghost p2 = cviews(parts@);
    if !r.ok {
        let mut v: Vec<char> = Vec::new();
        append_str(&mut v, "[exit code: ");
        push_i32(&mut v, r.exit_code);
        append_str(&mut v, "]");
        let ghost before = cviews(parts@);
        let ghost vv = v@;
        parts.push(v);
        assert(cviews(parts@) =~= before.push(vv));
    }
    let ghost p3 = cviews(parts@);
    if let Some(e) = &r.error {
        push_part(&mut parts, "[error] ", e.as_str(), "");
        assert("[error] "@ + e@ + ""@ =~= "[error] "@ + e@);
    }
    assert(cviews(parts@) =~= op_output_parts(*r));
    if parts.len() == 0 {
        string_from("(no output)")
    } else {
        let j = join_chars(&parts, "\n");
        string_of(&j)
    }
}

/// The text the build-targets tool answers with: the target list when make
/// succeeded or exited with 2 (targets out of date), otherwise every part of
/// the answer and the exit code.
pub open spec fn targets_output_text(r: Response) -> Seq<char> {
    if r.ok || r.exit_code == 2 {
        match r.stdout {
            Some(o) => o@,
            None => "(no targets found)"@,
        }
    } else {
        join(
            (match r.stdout {
                Some(o) => seq![o@],
                None => seq![],
            }) + (match r.stderr {
                Some(e) => seq!["[stderr] "@ + e@],
                None => seq![],
            }) + (match r.error {
                Some(e) => seq!["[error] "@ + e@],
                None => seq![],
            }) + seq!["[exit "@ + idec(r.exit_code as int) + "]"@],
            "\n"@,
        )
    }
}

/// Summarizes the answer to a target listing for the build-targets tool.
pub fn targets_output(r: &Response) -> (t: String)
    ensures
        t@ == targets_output_text(*r),
{
    proof {
        reveal_strlit("");
    }
    if r.ok || r.exit_code == 2 {
        return match &r.stdout {
            Some(o) => o.clone(),
            None => string_from("(no targets found)"),
        };
    }
    let mut parts: Vec<Vec<char>> = Vec::new();
    if let Some(o) = &r.stdout {
        push_part(&mut parts, "", o.as_str(), "");
        assert(""@ + o@ + ""@ =~= o@);
    }
    if let Some(e) = &r.stderr {
        push_part(&mut parts, "[stderr] ", e.as_str(), "");
        assert("[stderr] "@ + e@ + ""@ =~= "[stderr] "@ + e@);
    }
    if let Some(e) = &r.error {
        push_part(&mut parts, "[error] ", e.as_str(), "");
        assert("[error] "@ + e@ + ""@ =~= "[error] "@ + e@);
    }
    let mut v: Vec<char> = Vec::new();
    append_str(&mut v, "[exit ");
    push_i32(&mut v, r.exit_code);
    append_str(&mut v, "]");
    let ghost before = cviews(parts@);
    let ghost vv = v@;
    parts.push(v);
    assert(cviews(parts@) =~= before.push(vv));
    assert(cviews(parts@) =~= (match r.stdout {
        Some(o) => seq![o@],
        None => seq![],
    }) + (match r.stderr {
        Some(e) => seq!["[stderr] "@ + e@],
        None => seq![],
    }) + (match r.error {
        Some(e) => seq!["[error] "@ + e@],
        None => seq![],
    }) + seq!["[exit "@ + idec(r.exit_code as int) + "]"@]);
    let j = join_chars(&parts, "\n");
    string_of(&j)
}

/// The vector collection of a platform's documents: `romhack_<platform>`.
pub fn collection_name(platform: &str) -> (r: String)
    ensures
        r@ == "romhack_"@ + platform@,
{
    let mut v: Vec<char> = Vec::new();
    append_str(&mut v, "romhack_");
    append_str(&mut v, platform);
    string_of(&v)
}

/// The payload stored with an embedded chunk: its text, its source, and
/// the platform when one is given, as (key, value) pairs.
pub fn chunk_payload(chunk: &str, source: &str, platform: Option<&str>) -> (r: Vec<(String, String)>)
    ensures
        r@.map_values(|kv: (String, String)| (kv.0@, kv.1@)) == seq![("text"@, chunk@), ("source"@, source@)]
            + match platform {
            Some(p) => seq![("platform"@, p@)],
            None => seq![],
        },
{
    let mut r = vec![(string_from("text"), string_from(chunk)), (string_from("source"), string_from(source))];
    if let Some(p) = platform {
        r.push((string_from("platform"), string_from(p)));
    }
    assert(r@.map_values(|kv: (String, String)| (kv.0@, kv.1@)) =~= seq![("text"@, chunk@), ("source"@, source@)]
        + match platform {
        Some(p) => seq![("platform"@, p@)],
        None => seq![],
    });
    r
}

proof fn lemma_digits_not_ws(n: nat)
    ensures
        forall|i: int| 0 <= i < dec(n).len() ==> !is_ws(#[trigger] dec(n)[i]),
        forall|i: int| 0 <= i < hex(n).len() ==> !is_ws(#[trigger] hex(n)[i]),
        forall|i: int| 0 <= i < dec(n).len() ==> #[trigger] dec(n)[i] != 'x' && dec(n)[i] != 'X',
    decreases n,
{
    if n >= 10 {
        lemma_digits_not_ws(n / 10);
    }
    if n >= 16 {
        lemma_digits_not_ws(n / 16);
    }
    assert(digit_char(n % 10) as u32 == 48 + n % 10);
    if n % 16 < 10 {
        assert(digit_char(n % 16) as u32 == 48 + n % 16);
    } else {
        assert(digit_char(n % 16) as u32 == 87 + n % 16);
    }
    assert forall|i: int| 0 <= i < dec(n).len() implies !is_ws(#[trigger] dec(n)[i]) && dec(n)[i] != 'x' && dec(n)[i] != 'X' by {
        if n >= 10 && i < dec(n / 10).len() {
            assert(dec(n)[i] == dec(n / 10)[i]);
        }
    }
    assert forall|i: int| 0 <= i < hex(n).len() implies !is_ws(#[trigger] hex(n)[i]) by {
        if n >= 16 && i < hex(n / 16).len() {
            assert(hex(n)[i] == hex(n / 16)[i]);
        }
    }
}

/// An address written in decimal, or in hex after `0x`, reads back as
/// itself.
pub proof fn lemma_addr_roundtrip(n: u32)
    ensures
        addr_value(dec(n as nat)) == Ok::<u32, IntErrorKind>(n),
        addr_value("0x"@ + hex(n as nat)) == Ok::<u32, IntErrorKind>(n),
{
    lemma_format_parse_roundtrip(n);
    lemma_digits_not_ws(n as nat);
    reveal_strlit("0x");
    let d = dec(n as nat);
    let h = "0x"@ + hex(n as nat);
    lemma_trim_fixed(d);
    assert(h[0] == '0' && h[1] == 'x');
    assert(!is_ws(h.last())) by {
        assert(h.last() == hex(n as nat)[hex(n as nat).len() - 1]);
    }
    assert(!is_ws(h[0]));
    lemma_trim_fixed(h);
    assert(h.skip(2) =~= hex(n as nat));
    if d.len() >= 2 {
        assert(d[1] != 'x' && d[1] != 'X');
    }
}

/// The answer of `open_debug_port` for `platform` on `port`: `None` when
/// the platform is unknown, otherwise how running the container went. It
/// started only when podman exited with 0; its stdout is then the
/// container id.
pub open spec fn debug_port_text(platform: Seq<char>, port: u16, outcome: Option<CommandOutcome>) -> Seq<char> {
    match outcome {
        None => "Unknown platform: "@ + platform,
        Some(CommandOutcome::SpawnFailed(e)) => "Failed to start debug session: "@ + e@,
        Some(CommandOutcome::WaitFailed(e)) => "Failed to start debug session: "@ + e@,
        Some(CommandOutcome::Finished { stdout, stderr, exit_code }) => if exit_code == Some(0i32) {
            let p = dec(port as nat);
            "Debug session started: "@ + trim(stdout@) + "\nPort "@ + p + " exposed on host.\nStart your emulator's GDB stub on port "@
                + p + ", then from inside the container:\n  ./debug-connect.sh host.gateway.internal "@ + p
        } else {
            "Failed:\n"@ + stderr@
        },
    }
}

/// The answer of `open_debug_port` (see `debug_port_text`).
pub fn debug_port_reply(platform: &str, port: u16, outcome: Option<CommandOutcome>) -> (t: String)
    ensures
        t@ == debug_port_text(platform@, port, outcome),
{
    let mut v: Vec<char> = Vec::new();
    match outcome {
        None => {
            append_str(&mut v, "Unknown platform: ");
            append_str(&mut v, platform);
        },
        Some(CommandOutcome::SpawnFailed(e)) => {
            append_str(&mut v, "Failed to start debug session: ");
            append_str(&mut v, e.as_str());
        },
        Some(CommandOutcome::WaitFailed(e)) => {
            append_str(&mut v, "Failed to start debug session: ");
            append_str(&mut v, e.as_str());
        },
        Some(CommandOutcome::Finished { stdout, stderr, exit_code }) => {
            let started = match exit_code {
                Some(c) => c == 0,
                None => false,
            };
            if started {
                let out = chars_of(stdout.as_str());
                let id = trim_chars(&out);
                let mut p: Vec<char> = Vec::new();
                push_dec(&mut p, port as u32);
                assert(p@ =~= dec(port as nat));
                append_str(&mut v, "Debug session started: ");
                append_chars(&mut v, &id);
                append_str(&mut v, "\nPort ");
                append_chars(&mut v, &p);
                append_str(&mut v, " exposed on host.\nStart your emulator's GDB stub on port ");
                append_chars(&mut v, &p);
                append_str(&mut v, ", then from inside the container:\n  ./debug-connect.sh host.gateway.internal ");
                append_chars(&mut v, &p);
            } else {
                append_str(&mut v, "Failed:\n");
                append_str(&mut v, stderr.as_str());
            }
        },
    }
    string_of(&v)
}

/// What the run-op tool shows of a command's answer, whatever its outcome:
/// a non-empty stdout, any stderr after a `[stderr]` line (also when the
/// command succeeded), the exit code whenever the command failed, and any
/// error; and `(no output)` exactly when there is none of these.
pub proof fn lemma_op_output_shows(r: Response)
    ensures
        r.stdout matches Some(o) ==> (o@.len() > 0 ==> has_part(op_output_text(r), o@)),
        r.stderr matches Some(e) ==> has_part(op_output_text(r), "[stderr]\n"@ + e@),
        !r.ok ==> has_part(op_output_text(r), "[exit code: "@ + idec(r.exit_code as int) + "]"@),
        r.error matches Some(e) ==> has_part(op_output_text(r), "[error] "@ + e@),
        (op_output_text(r) == "(no output)"@) <== (!(r.stdout matches Some(o) && o@.len() > 0)
            && r.stderr is None && r.ok && r.error is None),
{
    let a: Seq<Seq<char>> = match r.stdout {
        Some(o) => if o@.len() > 0 { seq![o@] } else { seq![] },
        None => seq![],
    };
    let b: Seq<Seq<char>> = match r.stderr {
        Some(e) => seq!["[stderr]\n"@ + e@],
        None => seq![],
    };
    let c: Seq<Seq<char>> = if !r.ok {
        seq!["[exit code: "@ + idec(r.exit_code as int) + "]"@]
    } else {
        seq![]
    };
    let d: Seq<Seq<char>> = match r.error {
        Some(e) => seq!["[error] "@ + e@],
        None => seq![],
    };
    let parts = op_output_parts(r);
    assert(parts == a + b + c + d);
    if a.len() > 0 {
        assert(parts[0] == a[0]);
        lemma_join_has_part(parts, "\n"@, 0);
    }
    if b.len() > 0 {
        assert(parts[a.len() as int] == b[0]);
        lemma_join_has_part(parts, "\n"@, a.len() as int);
    }
    if c.len() > 0 {
        assert(parts[(a.len() + b.len()) as int] == c[0]);
        lemma_join_has_part(parts, "\n"@, (a.len() + b.len()) as int);
    }
    if d.len() > 0 {
        assert(parts[(a.len() + b.len() + c.len()) as int] == d[0]);
        lemma_join_has_part(parts, "\n"@, (a.len() + b.len() + c.len()) as int);
    }
}

} // verus!

//! Binary editing: the answers of `ReadBytes` and `WriteBytes`, and the
//! steps of `WriteInstruction`, which disassembles the instruction in place,
//! assembles the new one, and writes it only when both have the same size.
use vstd::prelude::*;
use crate::hexcodec::{decode_hex, encode_hex, hex_decode, hex_encode, lemma_hex_roundtrip};
use crate::num::{dec, push_dec};
use crate::objdump::{first_byte_count, parse_objdump_byte_count};
use crate::ops::{assemble_argv, assemble_thumb_cmds, objcopy_argv, read_instruction_argv, read_instruction_cmd};
use crate::protocol::{Arch, Response, is_consistent_response, is_error_response};
use crate::text::{append_str, lines, string_from, string_of, views};

verus! {

/// `"<prefix><e>"`.
pub fn prefixed(prefix: &str, e: &str) -> (r: String)
    ensures
        r@ == prefix@ + e@,
{
    let mut v: Vec<char> = Vec::new();
    append_str(&mut v, prefix);
    append_str(&mut v, e);
    string_of(&v)
}

/// The answer to `ReadBytes` of request `id`, given what reading the file
/// gave: the bytes as hex, or the error.
pub open spec fn is_read_response(r: Response, id: Seq<char>, read: Result<Vec<u8>, String>) -> bool {
    match read {
        Ok(buf) => r.id@ == id && r.ok && (r.stdout matches Some(o) && o@ == hex_encode(buf@))
            && r.stderr is None && r.exit_code == 0 && r.error is None,
        Err(e) => is_error_response(r, id, "read_bytes failed: "@ + e@),
    }
}

/// The answer to `ReadBytes`, given what reading the file gave.
pub fn read_bytes_response(id: &str, read: Result<Vec<u8>, String>) -> (r: Response)
    ensures
        is_read_response(r, id@, read),
        is_consistent_response(r),
{
    match read {
        Ok(buf) => Response {
            id: string_from(id),
            ok: true,
            stdout: Some(encode_hex(buf.as_slice())),
            stderr: None,
            exit_code: 0,
            error: None,
        },
        Err(e) => Response::err(id, prefixed("read_bytes failed: ", e.as_str()).as_str()),
    }
}

/// The answer of a write, given whether writing the file worked.
pub open spec fn is_write_response(r: Response, id: Seq<char>, wrote: Result<(), String>) -> bool {
    match wrote {
        Ok(()) => r.id@ == id && r.ok && r.stdout is None && r.stderr is None && r.exit_code == 0
            && r.error is None,
        Err(e) => is_error_response(r, id, "write_bytes failed: "@ + e@),
    }
}

/// The answer to `WriteBytes`, given whether writing the file worked.
pub fn write_bytes_response(id: &str, wrote: Result<(), String>) -> (r: Response)
    ensures
        is_write_response(r, id@, wrote),
        is_consistent_response(r),
{
    match wrote {
        Ok(()) => Response {
            id: string_from(id),
            ok: true,
            stdout: None,
            stderr: None,
            exit_code: 0,
            error: None,
        },
        Err(e) => Response::err(id, prefixed("write_bytes failed: ", e.as_str()).as_str()),
    }
}

/// The JSON text of a `SizeMismatchError` with these sizes, fields in
/// declaration order.
pub open spec fn size_mismatch_json(existing: u32, new: u32) -> Seq<char> {
    "{\"kind\":\"size_mismatch\",\"existing_bytes\":"@ + dec(existing as nat) + ",\"new_bytes\":"@
        + dec(new as nat) + "}"@
}

/// The JSON text of the size mismatch error.
pub fn size_mismatch_text(existing: u32, new: u32) -> (r: String)
    ensures
        r@ == size_mismatch_json(existing, new),
{
    let mut v: Vec<char> = Vec::new();
    append_str(&mut v, "{\"kind\":\"size_mismatch\",\"existing_bytes\":");
    push_dec(&mut v, existing);
    append_str(&mut v, ",\"new_bytes\":");
    push_dec(&mut v, new);
    append_str(&mut v, "}");
    string_of(&v)
}

/// A `WriteInstruction` of a Thumb instruction being carried out.
pub struct InstructionEdit {
    pub id: String,
    pub file: String,
    pub offset: u32,
    pub instruction: String,
}

/// Where the temporary object file of request `id` goes.
pub open spec fn obj_path(id: Seq<char>) -> Seq<char> {
    "/tmp/gami_"@ + id + ".o"@
}

/// Where the raw assembled bytes of request `id` go.
pub open spec fn bin_path(id: Seq<char>) -> Seq<char> {
    "/tmp/gami_"@ + id + ".bin"@
}

/// The assembler's input: the instruction on a line of its own.
pub open spec fn asm_input(instruction: Seq<char>) -> Seq<char> {
    "\t"@ + instruction + "\n"@
}

/// How far an edit has got; the sizes are the existing instruction's.
pub enum EditStage {
    Disassembling,
    Assembling { existing: u32 },
    Extracting { existing: u32 },
    Measuring { existing: u32 },
    Reading,
    Writing,
    Done,
}

/// What the edit asks its runner to do next. Every path in `remove` is to
/// be deleted (ignoring failures) before the rest of the action.
pub enum EditAction {
    /// Run `args` in the request's working directory, `stdin` on its input.
    Run { args: Vec<String>, stdin: String },
    /// Find the size in bytes of the file at `path`.
    Measure { path: String },
    /// Read the whole file at `path`.
    ReadFile { path: String },
    /// Write `bytes` into `file` at `offset`.
    WriteBytes { remove: Vec<String>, file: String, offset: u32, bytes: Vec<u8> },
    /// The edit is over: answer `response`.
    Finish { remove: Vec<String>, response: Response },
}

/// What came of the last action.
pub enum EditEvent {
    Ran(Response),
    Measured(Result<u64, String>),
    ReadDone(Result<Vec<u8>, String>),
    Wrote(Result<(), String>),
}

/// The event answers the action of the stage.
pub open spec fn event_fits(stage: EditStage, event: EditEvent) -> bool {
    match stage {
        EditStage::Disassembling | EditStage::Assembling { .. } | EditStage::Extracting { .. } =>
            event is Ran,
        EditStage::Measuring { .. } => event is Measured,
        EditStage::Reading => event is ReadDone,
        EditStage::Writing => event is Wrote,
        EditStage::Done => false,
    }
}

/// `Finish` with nothing to delete and this response.
pub open spec fn finishes_with(a: EditAction, p: spec_fn(Response) -> bool) -> bool {
    a matches EditAction::Finish { remove, response } && remove.len() == 0 && p(response)
}

/// `Run` of this argv with this input.
pub open spec fn runs(a: EditAction, argv: Seq<Seq<char>>, input: Seq<char>) -> bool {
    a matches EditAction::Run { args, stdin } && views(args@) == argv && stdin@ == input
}

/// The temporary files of the edit.
pub open spec fn temp_files(id: Seq<char>) -> Seq<Seq<char>> {
    seq![obj_path(id), bin_path(id)]
}

/// The step the edit takes from `stage` on `event`.
pub open spec fn edit_step(e: InstructionEdit, stage: EditStage, event: EditEvent, next: EditStage, a: EditAction) -> bool {
    let id = e.id@;
    match (stage, event) {
        (EditStage::Disassembling, EditEvent::Ran(r)) => if !r.ok {
            next is Done && finishes_with(a, |x: Response| x == r)
        } else {
            let out = match r.stdout {
                Some(o) => o@,
                None => seq![],
            };
            match first_byte_count(lines(out)) {
                None => next is Done && finishes_with(
                    a,
                    |x: Response|
                        is_error_response(
                            x,
                            id,
                            "failed to parse objdump output for existing instruction"@,
                        ),
                ),
                Some(n) => next == EditStage::Assembling { existing: n } && runs(
                    a,
                    assemble_argv(obj_path(id)),
                    asm_input(e.instruction@),
                ),
            }
        },
        (EditStage::Assembling { existing }, EditEvent::Ran(r)) => if !r.ok {
            next is Done && finishes_with(a, |x: Response| x == r)
        } else {
            next == EditStage::Extracting { existing } && runs(
                a,
                objcopy_argv(obj_path(id), bin_path(id)),
                seq![],
            )
        },
        (EditStage::Extracting { existing }, EditEvent::Ran(r)) => if !r.ok {
            next is Done && finishes_with(a, |x: Response| x == r)
        } else {
            next == EditStage::Measuring { existing } && (a matches EditAction::Measure { path }
                && path@ == bin_path(id))
        },
        (EditStage::Measuring { existing }, EditEvent::Measured(m)) => match m {
            Err(err) => next is Done && finishes_with(
                a,
                |x: Response| is_error_response(x, id, "failed to stat assembled binary: "@ + err@),
            ),
            Ok(len) => if len as u32 != existing {
                next is Done && (a matches EditAction::Finish { remove, response } && views(remove@)
                    == temp_files(id) && response.id@ == id && !response.ok
                    && response.stdout is None && response.stderr is None
                    && response.exit_code == -2 && (response.error matches Some(j) && j@
                    == size_mismatch_json(existing, len as u32)))
            } else {
                next is Reading && (a matches EditAction::ReadFile { path } && path@ == bin_path(id))
            },
        },
        (EditStage::Reading, EditEvent::ReadDone(rd)) => match rd {
            Err(err) => next is Done && finishes_with(
                a,
                |x: Response| is_error_response(x, id, "failed to read assembled binary: "@ + err@),
            ),
            Ok(bytes) => next is Writing && (a matches EditAction::WriteBytes {
                remove,
                file,
                offset,
                bytes: b,
            } && views(remove@) == temp_files(id) && file@ == e.file@ && offset == e.offset
                && b@ == bytes@),
        },
        (EditStage::Writing, EditEvent::Wrote(w)) => next is Done && finishes_with(
            a,
            |x: Response| is_write_response(x, id, w),
        ),
        _ => false,
    }
}

/// A `String` holding `"/tmp/gami_" + id + suffix`.
fn temp_path(id: &str, suffix: &str) -> (r: String)
    ensures
        r@ == "/tmp/gami_"@ + id@ + suffix@,
{
    let mut v: Vec<char> = Vec::new();
    append_str(&mut v, "/tmp/gami_");
    append_str(&mut v, id);
    append_str(&mut v, suffix);
    string_of(&v)
}

/// The two temporary paths of an edit.
fn temp_paths(id: &str) -> (r: Vec<String>)
    ensures
        views(r@) == temp_files(id@),
{
    let v = vec![temp_path(id, ".o"), temp_path(id, ".bin")];
    assert(views(v@) =~= temp_files(id@));
    v
}

/// The first action of an edit: disassemble the instruction at the offset.
pub fn edit_start(e: &InstructionEdit) -> (r: (EditStage, EditAction))
    requires
        e.offset + 4 <= u32::MAX,
    ensures
        r.0 is Disassembling,
        runs(r.1, read_instruction_argv(e.file@, e.offset), seq![]),
{
    let args = match read_instruction_cmd(e.file.as_str(), e.offset, &Arch::Thumb) {
        Ok(a) => a,
        Err(_) => {
            assert(false);
            Vec::new()
        },
    };
    (EditStage::Disassembling, EditAction::Run { args, stdin: String::new() })
}

/// The next stage and action of an edit, given what came of the last one.
pub fn edit_next(e: &InstructionEdit, stage: EditStage, event: EditEvent) -> (r: (EditStage, EditAction))
    requires
        event_fits(stage, event),
    ensures
        edit_step(*e, stage, event, r.0, r.1),
        (event matches EditEvent::Ran(x) ==> is_consistent_response(x)) ==> (r.1 matches EditAction::Finish {
            response,
            ..
        } ==> is_consistent_response(response)),
        (event matches EditEvent::Ran(x) ==> x.id@ == e.id@) ==> (r.1 matches EditAction::Finish {
            response,
            ..
        } ==> response.id@ == e.id@),
{
    let id = e.id.as_str();
    match (stage, event) {
        (EditStage::Disassembling, EditEvent::Ran(r)) => {
            if !r.ok {
                return (EditStage::Done, EditAction::Finish { remove: Vec::new(), response: r });
            }
            let count = match &r.stdout {
                Some(o) => parse_objdump_byte_count(o.as_str()),
                None => parse_objdump_byte_count(""),
            };
            proof {
                reveal_strlit("");
            }
            match count {
                None => (
                    EditStage::Done,
                    EditAction::Finish {
                        remove: Vec::new(),
                        response: Response::err(
                            id,
                            "failed to parse objdump output for existing instruction",
                        ),
                    },
                ),
                Some(n) => {
                    let obj = temp_path(id, ".o");
                    let bin = temp_path(id, ".bin");
                    let (as_args, _) = assemble_thumb_cmds(obj.as_str(), bin.as_str());
                    let mut input: Vec<char> = Vec::new();
                    append_str(&mut input, "\t");
                    append_str(&mut input, e.instruction.as_str());
                    append_str(&mut input, "\n");
                    (
                        EditStage::Assembling { existing: n },
                        EditAction::Run { args: as_args, stdin: string_of(&input) },
                    )
                },
            }
        },
        (EditStage::Assembling { existing }, EditEvent::Ran(r)) => {
            if !r.ok {
                return (EditStage::Done, EditAction::Finish { remove: Vec::new(), response: r });
            }
            let obj = temp_path(id, ".o");
            let bin = temp_path(id, ".bin");
            let (_, objcopy_args) = assemble_thumb_cmds(obj.as_str(), bin.as_str());
            proof {
                reveal_strlit("");
            }
            (EditStage::Extracting { existing }, EditAction::Run { args: objcopy_args, stdin: String::new() })
        },
        (EditStage::Extracting { existing }, EditEvent::Ran(r)) => {
            if !r.ok {
                return (EditStage::Done, EditAction::Finish { remove: Vec::new(), response: r });
            }
            (EditStage::Measuring { existing }, EditAction::Measure { path: temp_path(id, ".bin") })
        },
        (EditStage::Measuring { existing }, EditEvent::Measured(m)) => match m {
            Err(err) => (
                EditStage::Done,
                EditAction::Finish {
                    remove: Vec::new(),
                    response: Response::err(
                        id,
                        prefixed("failed to stat assembled binary: ", err.as_str()).as_str(),
                    ),
                },
            ),
            Ok(len) => {
                let new_bytes = len as u32;
                if new_bytes != existing {
                    let response = Response {
                        id: string_from(id),
                        ok: false,
                        stdout: None,
                        stderr: None,
                        exit_code: -2,
                        error: Some(size_mismatch_text(existing, new_bytes)),
                    };
                    (EditStage::Done, EditAction::Finish { remove: temp_paths(id), response })
                } else {
                    (EditStage::Reading, EditAction::ReadFile { path: temp_path(id, ".bin") })
                }
            },
        },
        (EditStage::Reading, EditEvent::ReadDone(rd)) => match rd {
            Err(err) => (
                EditStage::Done,
                EditAction::Finish {
                    remove: Vec::new(),
                    response: Response::err(
                        id,
                        prefixed("failed to read assembled binary: ", err.as_str()).as_str(),
                    ),
                },
            ),
            Ok(bytes) => {
                let hex = encode_hex(bytes.as_slice());
                proof {
                    lemma_hex_roundtrip(bytes@);
                }
                match decode_hex(hex.as_str()) {
                    Ok(decoded) => (
                        EditStage::Writing,
                        EditAction::WriteBytes {
                            remove: temp_paths(id),
                            file: e.file.clone(),
                            offset: e.offset,
                            bytes: decoded,
                        },
                    ),
                    Err(_) => {
                        assert(false);
                        (EditStage::Done, EditAction::Finish { remove: Vec::new(), response: Response::err(id, "") })
                    },
                }
            },
        },
        (EditStage::Writing, EditEvent::Wrote(w)) => (
            EditStage::Done,
            EditAction::Finish { remove: Vec::new(), response: write_bytes_response(id, w) },
        ),
        _ => {
            assert(false);
            (EditStage::Done, EditAction::Finish { remove: Vec::new(), response: Response::err(id, "") })
        },
    }
}

/// An edit writes only the bytes it assembled and only after their size
/// matched the instruction it replaces: a write is asked for only on
/// leaving `Reading`, and `Reading` is entered only from a measurement equal
/// to the existing size. A size mismatch ends the edit with exit code -2.
pub proof fn lemma_write_needs_matching_size(
    e: InstructionEdit,
    stage: EditStage,
    event: EditEvent,
    next: EditStage,
    a: EditAction,
)
    requires
        edit_step(e, stage, event, next, a),
    ensures
        a is WriteBytes ==> stage is Reading && (event matches EditEvent::ReadDone(Ok(b)) && (a matches EditAction::WriteBytes { bytes, .. } && bytes@ == b@)),
        next is Reading ==> (stage matches EditStage::Measuring { existing } && (event matches EditEvent::Measured(Ok(len)) && len as u32 == existing)),
        (stage matches EditStage::Measuring { existing } && (event matches EditEvent::Measured(Ok(len)) && len as u32 != existing))
            ==> (a matches EditAction::Finish { response, .. } && response.exit_code == -2 && !response.ok),
{
}

} // verus!

//! LTX requests.
//!
//! A request writes itself as one frame and then consumes the frames of the
//! peer until it is completed. [`Request::feed`] gives the [`Reply`] of a
//! request exactly once.

use crate::errors::ErrorView;
use crate::errors::KirkError;
use crate::ltx::wire;
use crate::ltx::wire::Field;
use crate::ltx::wire::FieldView;
use crate::text;
use vstd::prelude::*;
use vstd::string::*;

verus! {

/// Opcode sent by the peer when a request failed.
pub const OP_ERROR: u8 = 0xFF;

/// Opcode of the version request/reply.
pub const OP_VERSION: u8 = 0x00;

/// Opcode of the ping request echo.
pub const OP_PING: u8 = 0x01;

/// Opcode of the ping reply.
pub const OP_PONG: u8 = 0x02;

/// Opcode of the file-download request echo.
pub const OP_GET_FILE: u8 = 0x03;

/// Opcode of the file-upload request echo.
pub const OP_SET_FILE: u8 = 0x04;

/// Opcode of the environment request echo.
pub const OP_ENV: u8 = 0x05;

/// Opcode of the working-directory request echo.
pub const OP_CWD: u8 = 0x06;

/// Opcode of the execute request echo.
pub const OP_EXEC: u8 = 0x07;

/// Opcode of the execute result.
pub const OP_RESULT: u8 = 0x08;

/// Opcode of execute stdout chunks.
pub const OP_LOG: u8 = 0x09;

/// Opcode of file-download chunks.
pub const OP_DATA: u8 = 0xA0;

/// Opcode of the kill request echo.
pub const OP_KILL: u8 = 0xA1;

/// Highest assignable execution slot.
pub const MAX_SLOTS: u8 = 127;

/// Slot id that addresses all slots, for `ENV` and `CWD`.
pub const ALL_SLOTS: u8 = 128;

/// Maximum accumulated stdout for one `EXECUTE` request.
pub const MAX_STDOUT_BYTES: usize = 16777216;

/// Maximum accumulated payload for one `GET_FILE` request.
pub const MAX_FILE_BYTES: usize = 67108864;

/// Execution slot id, at most [`MAX_SLOTS`].
#[derive(Debug, Clone, Copy, PartialEq, Eq, Hash)]
pub struct SlotId(u8);

impl SlotId {
    /// Raw slot id.
    pub closed spec fn id(self) -> u8 {
        self.0
    }

    #[verifier::type_invariant]
    spec fn in_range(self) -> bool {
        self.0 <= MAX_SLOTS
    }

    /// Validate a raw slot id.
    pub fn new(id: u8) -> (r: Result<Self, KirkError>)
        ensures
            match r {
                Ok(slot) => id <= MAX_SLOTS && slot.id() == id,
                Err(e) => id > MAX_SLOTS && e@ == ErrorView::Ltx("Out of bounds slot ID [0-127]"@),
            },
    {
        if id <= MAX_SLOTS {
            Ok(SlotId(id))
        } else {
            Err(KirkError::Ltx(text::owned("Out of bounds slot ID [0-127]")))
        }
    }

    /// Return the raw slot id.
    pub fn get(self) -> (id: u8)
        ensures
            id == self.id(),
            id <= MAX_SLOTS,
    {
        proof {
            use_type_invariant(self);
        }
        self.0
    }
}

/// Slot that an `ENV` or `CWD` request addresses, or the error it gives.
pub open spec fn broadcast_slot(slot: Option<u8>) -> Result<u8, ErrorView> {
    match slot {
        None => Ok(ALL_SLOTS),
        Some(id) => if id <= ALL_SLOTS {
            Ok(id)
        } else {
            Err(ErrorView::Ltx("Out of bounds slot ID [0-128]"@))
        },
    }
}

/// Validate an `ENV`/`CWD` slot id; no slot means all slots.
pub fn check_broadcast_slot(slot: Option<u8>) -> (r: Result<u8, KirkError>)
    ensures
        match r {
            Ok(id) => broadcast_slot(slot) == Ok::<u8, ErrorView>(id),
            Err(e) => broadcast_slot(slot) == Err::<u8, ErrorView>(e@),
        },
{
    match slot {
        None => Ok(ALL_SLOTS),
        Some(id) => if id <= ALL_SLOTS {
            Ok(id)
        } else {
            Err(KirkError::Ltx(text::owned("Out of bounds slot ID [0-128]")))
        },
    }
}

/// Reply produced when a request completes.
#[derive(Debug, Clone, PartialEq, Eq)]
pub enum Reply {
    /// `VERSION` reply: peer version string.
    Version(String),
    /// `PONG` reply: peer timestamp in nanoseconds.
    Ping(u64),
    /// `ENV` echo.
    Env {
        /// Slot addressed.
        slot: u8,
        /// Variable name.
        key: String,
        /// Variable value.
        value: String,
    },
    /// `CWD` echo.
    Cwd {
        /// Slot addressed.
        slot: u8,
        /// Working directory.
        path: String,
    },
    /// `GET_FILE` echo: path plus the accumulated `DATA` payload.
    GetFile {
        /// File path.
        path: String,
        /// File contents.
        data: Vec<u8>,
    },
    /// `SET_FILE` echo: path plus the written payload.
    SetFile {
        /// File path.
        path: String,
        /// File contents.
        data: Vec<u8>,
    },
    /// `RESULT` of a command, with its accumulated stdout.
    Execute {
        /// Peer timestamp in nanoseconds.
        time_ns: u64,
        /// How the process ended.
        si_code: i32,
        /// Exit status or signal.
        si_status: i32,
        /// Accumulated stdout.
        stdout: String,
    },
    /// `KILL` echo.
    Kill {
        /// Slot addressed.
        slot: u8,
    },
}

/// What a reply says.
pub enum ReplyView {
    /// Peer version string.
    Version(Seq<char>),
    /// Peer timestamp in nanoseconds.
    Ping(u64),
    /// Slot, variable name and value.
    Env(u8, Seq<char>, Seq<char>),
    /// Slot and working directory.
    Cwd(u8, Seq<char>),
    /// Path and contents of a fetched file.
    GetFile(Seq<char>, Seq<u8>),
    /// Path and contents of a written file.
    SetFile(Seq<char>, Seq<u8>),
    /// Timestamp, code, status and stdout of a command.
    Execute(u64, i32, i32, Seq<char>),
    /// Slot killed.
    Kill(u8),
}

impl View for Reply {
    type V = ReplyView;

    open spec fn view(&self) -> ReplyView {
        match self {
            Reply::Version(v) => ReplyView::Version(v@),
            Reply::Ping(t) => ReplyView::Ping(*t),
            Reply::Env { slot, key, value } => ReplyView::Env(*slot, key@, value@),
            Reply::Cwd { slot, path } => ReplyView::Cwd(*slot, path@),
            Reply::GetFile { path, data } => ReplyView::GetFile(path@, data@),
            Reply::SetFile { path, data } => ReplyView::SetFile(path@, data@),
            Reply::Execute { time_ns, si_code, si_status, stdout } => ReplyView::Execute(
                *time_ns,
                *si_code,
                *si_status,
                stdout@,
            ),
            Reply::Kill { slot } => ReplyView::Kill(*slot),
        }
    }
}

/// `VERSION` request state.
#[derive(Debug)]
pub struct VersionReq {
    completed: bool,
}

/// `PING` request state.
#[derive(Debug)]
pub struct PingReq {
    completed: bool,
    echoed: bool,
}

/// `ENV` request state.
#[derive(Debug)]
pub struct EnvReq {
    completed: bool,
    slot: u8,
    key: String,
    value: String,
}

/// `CWD` request state.
#[derive(Debug)]
pub struct CwdReq {
    completed: bool,
    slot: u8,
    path: String,
}

/// `GET_FILE` request state.
#[derive(Debug)]
pub struct GetFileReq {
    completed: bool,
    path: String,
    data: Vec<u8>,
}

/// `SET_FILE` request state.
#[derive(Debug)]
pub struct SetFileReq {
    completed: bool,
    path: String,
    data: Vec<u8>,
}

/// `EXEC` request state.
#[derive(Debug)]
pub struct ExecuteReq {
    completed: bool,
    echoed: bool,
    slot: u8,
    command: String,
    streaming: bool,
    streamed: Vec<String>,
    stdout: String,
}

/// `KILL` request state.
#[derive(Debug)]
pub struct KillReq {
    completed: bool,
    slot: u8,
}

/// LTX request state machine.
#[derive(Debug)]
pub enum Request {
    /// Version request.
    Version(VersionReq),
    /// Ping request.
    Ping(PingReq),
    /// Environment request.
    Env(EnvReq),
    /// Working-directory request.
    Cwd(CwdReq),
    /// File-download request.
    GetFile(GetFileReq),
    /// File-upload request.
    SetFile(SetFileReq),
    /// Execute request.
    Execute(ExecuteReq),
    /// Kill request.
    Kill(KillReq),
}

/// What a request asks for.
#[verifier::ext_equal]
pub enum Ask {
    /// Peer version.
    Version,
    /// Round trip time.
    Ping,
    /// Set a variable in a slot.
    Env(u8, Seq<char>, Seq<char>),
    /// Set the working directory of a slot.
    Cwd(u8, Seq<char>),
    /// Fetch a file.
    GetFile(Seq<char>),
    /// Write a file.
    SetFile(Seq<char>, Seq<u8>),
    /// Run a command in a slot.
    Execute(u8, Seq<char>),
    /// Kill the command of a slot.
    Kill(u8),
}

/// A request and how far it has come.
#[verifier::ext_equal]
pub struct RequestView {
    /// What is asked for.
    pub ask: Ask,
    /// Whether the reply was given.
    pub completed: bool,
    /// Whether the peer has echoed a `PING` or `EXEC` request.
    pub echoed: bool,
    /// Bytes of a fetched file so far.
    pub data: Seq<u8>,
    /// Stdout of a command so far.
    pub stdout: Seq<char>,
    /// Whether stdout chunks are kept for streaming.
    pub streaming: bool,
    /// Stdout chunks that wait to be streamed.
    pub streamed: Seq<Seq<char>>,
}

/// A request that nothing was fed to.
pub open spec fn fresh(ask: Ask) -> RequestView {
    RequestView {
        ask,
        completed: false,
        echoed: false,
        data: Seq::empty(),
        stdout: Seq::empty(),
        streaming: false,
        streamed: Seq::empty(),
    }
}

impl View for Request {
    type V = RequestView;

    closed spec fn view(&self) -> RequestView {
        match self {
            Request::Version(r) => RequestView { completed: r.completed, ..fresh(Ask::Version) },
            Request::Ping(r) => RequestView {
                completed: r.completed,
                echoed: r.echoed,
                ..fresh(Ask::Ping)
            },
            Request::Env(r) => RequestView {
                completed: r.completed,
                ..fresh(Ask::Env(r.slot, r.key@, r.value@))
            },
            Request::Cwd(r) => RequestView {
                completed: r.completed,
                ..fresh(Ask::Cwd(r.slot, r.path@))
            },
            Request::GetFile(r) => RequestView {
                completed: r.completed,
                data: r.data@,
                ..fresh(Ask::GetFile(r.path@))
            },
            Request::SetFile(r) => RequestView {
                completed: r.completed,
                ..fresh(Ask::SetFile(r.path@, r.data@))
            },
            Request::Execute(r) => RequestView {
                completed: r.completed,
                echoed: r.echoed,
                stdout: r.stdout@,
                streaming: r.streaming,
                streamed: text::texts(r.streamed@),
                ..fresh(Ask::Execute(r.slot, r.command@))
            },
            Request::Kill(r) => RequestView { completed: r.completed, ..fresh(Ask::Kill(r.slot)) },
        }
    }
}

/// Fields of the frame that a request is sent as.
pub open spec fn request_fields(ask: Ask) -> Seq<FieldView> {
    match ask {
        Ask::Version => seq![FieldView::U64(OP_VERSION as u64)],
        Ask::Ping => seq![FieldView::U64(OP_PING as u64)],
        Ask::Env(slot, key, value) => seq![
            FieldView::U64(OP_ENV as u64),
            FieldView::U64(slot as u64),
            FieldView::Str(key),
            FieldView::Str(value),
        ],
        Ask::Cwd(slot, path) => seq![
            FieldView::U64(OP_CWD as u64),
            FieldView::U64(slot as u64),
            FieldView::Str(path),
        ],
        Ask::GetFile(path) => seq![FieldView::U64(OP_GET_FILE as u64), FieldView::Str(path)],
        Ask::SetFile(path, data) => seq![
            FieldView::U64(OP_SET_FILE as u64),
            FieldView::Str(path),
            FieldView::Bin(data),
        ],
        Ask::Execute(slot, command) => seq![
            FieldView::U64(OP_EXEC as u64),
            FieldView::U64(slot as u64),
            FieldView::Str(command),
        ],
        Ask::Kill(slot) => seq![FieldView::U64(OP_KILL as u64), FieldView::U64(slot as u64)],
    }
}

/// Opcode of a frame, where it has one.
pub open spec fn frame_opcode_of(msg: Seq<FieldView>) -> Option<u8> {
    if msg.len() == 0 {
        None
    } else {
        match wire::opcode_in(msg[0]) {
            Ok(op) => Some(op),
            Err(_) => None,
        }
    }
}

/// Whether a frame addresses `slot`; a frame of one field addresses any.
pub open spec fn addresses(msg: Seq<FieldView>, slot: u8) -> bool {
    msg.len() <= 1 || msg[1] == FieldView::U64(slot as u64)
}

/// What feeding a frame to a request comes to.
#[verifier::ext_equal]
pub enum Fed {
    /// The request goes on.
    Nothing,
    /// The request completes with this reply.
    Reply(ReplyView),
    /// The frame breaks the protocol.
    Fail(ErrorView),
}

/// Field `i` of a frame read by `read`, or the error that the field, or its
/// absence, gives.
pub open spec fn field_or<T>(
    msg: Seq<FieldView>,
    i: int,
    absent: Seq<char>,
    read: spec_fn(FieldView) -> Result<T, ErrorView>,
) -> Result<T, ErrorView> {
    if i < msg.len() {
        read(msg[i])
    } else {
        Err(ErrorView::Ltx(absent))
    }
}

/// A request completed with a reply.
pub open spec fn completed_with(r: RequestView, reply: ReplyView) -> (RequestView, Fed) {
    (RequestView { completed: true, ..r }, Fed::Reply(reply))
}

/// What a `LOG` frame does to an `EXEC` request.
pub open spec fn fed_log(r: RequestView, msg: Seq<FieldView>) -> (RequestView, Fed) {
    if !r.echoed {
        (r, Fed::Fail(ErrorView::Ltx("LOG received without EXEC echo"@)))
    } else {
        match field_or(msg, 3, "malformed LOG frame"@, |f: FieldView| wire::text_in(f)) {
            Err(e) => (r, Fed::Fail(e)),
            Ok(log) => {
                let total = text::byte_len(r.stdout) + text::byte_len(log);
                if log.len() == 0 {
                    (r, Fed::Nothing)
                } else if total > usize::MAX {
                    (r, Fed::Fail(ErrorView::Ltx("EXEC stdout size overflow"@)))
                } else if total > MAX_STDOUT_BYTES {
                    (
                        r,
                        Fed::Fail(
                            ErrorView::Ltx(
                                "EXEC stdout of "@ + text::decimal_text(total) + " bytes exceeds "@
                                    + text::decimal_text(MAX_STDOUT_BYTES as nat) + " bytes"@,
                            ),
                        ),
                    )
                } else {
                    (
                        RequestView {
                            stdout: r.stdout + log,
                            streamed: if r.streaming {
                                r.streamed.push(log)
                            } else {
                                r.streamed
                            },
                            ..r
                        },
                        Fed::Nothing,
                    )
                }
            },
        }
    }
}

/// What a `RESULT` frame does to an `EXEC` request.
pub open spec fn fed_result(r: RequestView, msg: Seq<FieldView>) -> (RequestView, Fed) {
    let absent = "malformed RESULT frame"@;
    if !r.echoed {
        (r, Fed::Fail(ErrorView::Ltx("RESULT received without EXEC echo"@)))
    } else {
        match field_or(msg, 2, absent, |f: FieldView| wire::timestamp_in(f)) {
            Err(e) => (r, Fed::Fail(e)),
            Ok(time) => match field_or(msg, 3, absent, |f: FieldView| wire::status_in(f)) {
                Err(e) => (r, Fed::Fail(e)),
                Ok(code) => match field_or(msg, 4, absent, |f: FieldView| wire::status_in(f)) {
                    Err(e) => (r, Fed::Fail(e)),
                    Ok(status) => completed_with(
                        RequestView { stdout: Seq::empty(), ..r },
                        ReplyView::Execute(time, code, status, r.stdout),
                    ),
                },
            },
        }
    }
}

/// What a `DATA` frame does to a `GET_FILE` request.
pub open spec fn fed_data(r: RequestView, msg: Seq<FieldView>) -> (RequestView, Fed) {
    match field_or(msg, 1, "malformed DATA frame"@, |f: FieldView| wire::bytes_in(f)) {
        Err(e) => (r, Fed::Fail(e)),
        Ok(chunk) => {
            let total = r.data.len() + chunk.len();
            if total > usize::MAX {
                (r, Fed::Fail(ErrorView::Ltx("GET_FILE payload size overflow"@)))
            } else if total > MAX_FILE_BYTES {
                (
                    r,
                    Fed::Fail(
                        ErrorView::Ltx(
                            "GET_FILE payload of "@ + text::decimal_text(total)
                                + " bytes exceeds "@ + text::decimal_text(MAX_FILE_BYTES as nat)
                                + " bytes"@,
                        ),
                    ),
                )
            } else {
                (RequestView { data: r.data + chunk, ..r }, Fed::Nothing)
            }
        },
    }
}

/// What a frame does to a request: the request afterwards, and what it gives.
pub open spec fn fed(r: RequestView, msg: Seq<FieldView>) -> (RequestView, Fed) {
    let op = frame_opcode_of(msg);
    if r.completed {
        (r, Fed::Nothing)
    } else {
        match r.ask {
            Ask::Version => if op == Some(OP_VERSION) {
                match field_or(msg, 1, "malformed VERSION reply"@, |f: FieldView| wire::text_in(f)) {
                    Ok(v) => completed_with(r, ReplyView::Version(v)),
                    Err(e) => (r, Fed::Fail(e)),
                }
            } else {
                (r, Fed::Nothing)
            },
            Ask::Ping => if op == Some(OP_PING) {
                (RequestView { echoed: true, ..r }, Fed::Nothing)
            } else if op == Some(OP_PONG) {
                if !r.echoed {
                    (r, Fed::Fail(ErrorView::Ltx("PONG received without PING echo"@)))
                } else {
                    match field_or(
                        msg,
                        1,
                        "malformed PONG reply"@,
                        |f: FieldView| wire::timestamp_in(f),
                    ) {
                        Ok(t) => completed_with(r, ReplyView::Ping(t)),
                        Err(e) => (r, Fed::Fail(e)),
                    }
                }
            } else {
                (r, Fed::Nothing)
            },
            Ask::Env(slot, key, value) => if addresses(msg, slot) && op == Some(OP_ENV) {
                completed_with(r, ReplyView::Env(slot, key, value))
            } else {
                (r, Fed::Nothing)
            },
            Ask::Cwd(slot, path) => if addresses(msg, slot) && op == Some(OP_CWD) {
                completed_with(r, ReplyView::Cwd(slot, path))
            } else {
                (r, Fed::Nothing)
            },
            Ask::GetFile(path) => if op == Some(OP_DATA) {
                fed_data(r, msg)
            } else if op == Some(OP_GET_FILE) {
                completed_with(
                    RequestView { data: Seq::empty(), ..r },
                    ReplyView::GetFile(path, r.data),
                )
            } else {
                (r, Fed::Nothing)
            },
            Ask::SetFile(path, data) => if op == Some(OP_SET_FILE) && msg.len() > 1 && msg[1]
                == FieldView::Str(path) {
                completed_with(
                    RequestView { ask: Ask::SetFile(path, Seq::empty()), ..r },
                    ReplyView::SetFile(path, data),
                )
            } else {
                (r, Fed::Nothing)
            },
            Ask::Execute(slot, _) => if !addresses(msg, slot) {
                (r, Fed::Nothing)
            } else if op == Some(OP_EXEC) {
                (RequestView { echoed: true, ..r }, Fed::Nothing)
            } else if op == Some(OP_LOG) {
                fed_log(r, msg)
            } else if op == Some(OP_RESULT) {
                fed_result(r, msg)
            } else {
                (r, Fed::Nothing)
            },
            Ask::Kill(slot) => if addresses(msg, slot) && op == Some(OP_KILL) {
                completed_with(r, ReplyView::Kill(slot))
            } else {
                (r, Fed::Nothing)
            },
        }
    }
}

/// Whether `r` is the answer that `out` stands for.
pub open spec fn says(r: Result<Option<Reply>, KirkError>, out: Fed) -> bool {
    match out {
        Fed::Nothing => r matches Ok(None),
        Fed::Reply(reply) => r matches Ok(Some(v)) && v@ == reply,
        Fed::Fail(error) => r matches Err(e) && e@ == error,
    }
}

fn ltx_error(message: &str) -> (e: KirkError)
    ensures
        e@ == ErrorView::Ltx(message@),
{
    KirkError::Ltx(text::owned(message))
}

/// Opcode of a frame, or `None` when it has none.
pub fn frame_opcode(msg: &Vec<Field>) -> (r: Option<u8>)
    ensures
        r == frame_opcode_of(wire::field_views(msg@)),
{
    if msg.len() == 0 {
        None
    } else {
        match msg[0].as_u8() {
            Ok(op) => Some(op),
            Err(_) => None,
        }
    }
}

/// Whether a frame addresses `slot`; a frame of one field addresses any.
pub fn frame_targets_slot(msg: &Vec<Field>, slot: u8) -> (r: bool)
    ensures
        r == addresses(wire::field_views(msg@), slot),
{
    if msg.len() <= 1 {
        return true;
    }
    match &msg[1] {
        Field::U64(id) => *id == slot as u64,
        _ => false,
    }
}

/// `rmp_serde::Serializer` over a byte vector, on an opcode alone: an array
/// of one number. A vector takes every write, so this never fails.
#[verifier::external_body]
fn pack_op(op: u8) -> (r: Result<Vec<u8>, String>)
    ensures
        r is Ok,
        r->Ok_0@ == wire::packed_frame(seq![FieldView::U64(op as u64)]),
{
    let mut out = rmp_serde::Serializer::new(Vec::new());
    serde::Serialize::serialize(&(op,), &mut out).map_err(|e| e.to_string())?;
    Ok(out.into_inner())
}

/// `rmp_serde::Serializer` over a byte vector, on an opcode and a slot: an
/// array of two numbers. A vector takes every write, so this never fails.
#[verifier::external_body]
fn pack_op_slot(op: u8, slot: u8) -> (r: Result<Vec<u8>, String>)
    ensures
        r is Ok,
        r->Ok_0@ == wire::packed_frame(
            seq![FieldView::U64(op as u64), FieldView::U64(slot as u64)],
        ),
{
    let mut out = rmp_serde::Serializer::new(Vec::new());
    serde::Serialize::serialize(&(op, slot), &mut out).map_err(|e| e.to_string())?;
    Ok(out.into_inner())
}

/// `rmp_serde::Serializer` over a byte vector, on an opcode and a text: an
/// array of a number and a string. A vector takes every write, so this never
/// fails. Nothing is said of the bytes of a text of more than `u32::MAX`
/// bytes, whose length is cut short.
#[verifier::external_body]
fn pack_op_text(op: u8, a: &str) -> (r: Result<Vec<u8>, String>)
    ensures
        r is Ok,
        text::byte_len(a@) <= u32::MAX ==> r->Ok_0@ == wire::packed_frame(
            seq![FieldView::U64(op as u64), FieldView::Str(a@)],
        ),
{
    let mut out = rmp_serde::Serializer::new(Vec::new());
    serde::Serialize::serialize(&(op, a), &mut out).map_err(|e| e.to_string())?;
    Ok(out.into_inner())
}

/// `rmp_serde::Serializer` over a byte vector, on an opcode, a slot and a
/// text: an array of two numbers and a string. A vector takes every write, so
/// this never fails. Nothing is said of the bytes of a text of more than
/// `u32::MAX` bytes, whose length is cut short.
#[verifier::external_body]
fn pack_op_slot_text(op: u8, slot: u8, a: &str) -> (r: Result<Vec<u8>, String>)
    ensures
        r is Ok,
        text::byte_len(a@) <= u32::MAX ==> r->Ok_0@ == wire::packed_frame(
            seq![FieldView::U64(op as u64), FieldView::U64(slot as u64), FieldView::Str(a@)],
        ),
{
    let mut out = rmp_serde::Serializer::new(Vec::new());
    serde::Serialize::serialize(&(op, slot, a), &mut out).map_err(|e| e.to_string())?;
    Ok(out.into_inner())
}

/// `rmp_serde::Serializer` over a byte vector, on an opcode, a slot and two
/// texts: an array of two numbers and two strings. A vector takes every write,
/// so this never fails. Nothing is said of the bytes of texts of more than
/// `u32::MAX` bytes, whose length is cut short.
#[verifier::external_body]
fn pack_op_slot_texts(op: u8, slot: u8, a: &str, c: &str) -> (r: Result<Vec<u8>, String>)
    ensures
        r is Ok,
        text::byte_len(a@) <= u32::MAX && text::byte_len(c@) <= u32::MAX ==> r->Ok_0@
            == wire::packed_frame(
            seq![
                FieldView::U64(op as u64),
                FieldView::U64(slot as u64),
                FieldView::Str(a@),
                FieldView::Str(c@),
            ],
        ),
{
    let mut out = rmp_serde::Serializer::new(Vec::new());
    serde::Serialize::serialize(&(op, slot, a, c), &mut out).map_err(|e| e.to_string())?;
    Ok(out.into_inner())
}

/// `rmp_serde::Serializer` over a byte vector, on an opcode, a text and bytes
/// handed to `serialize_bytes`, behind the head of an array of three: a
/// number, a string and binary data. A vector takes every write, so this never
/// fails. Nothing is said of the bytes of a text or of data of more than
/// `u32::MAX` bytes, whose length is cut short.
#[verifier::external_body]
fn pack_op_text_bytes(op: u8, a: &str, data: &[u8]) -> (r: Result<Vec<u8>, String>)
    ensures
        r is Ok,
        text::byte_len(a@) <= u32::MAX && data@.len() <= u32::MAX ==> r->Ok_0@
            == wire::packed_frame(
            seq![FieldView::U64(op as u64), FieldView::Str(a@), FieldView::Bin(data@)],
        ),
{
    let mut out = rmp_serde::Serializer::new(Vec::new());
    serde::Serializer::serialize_tuple(&mut out, 3).map_err(|e| e.to_string())?;
    serde::Serialize::serialize(&op, &mut out).map_err(|e| e.to_string())?;
    serde::Serialize::serialize(a, &mut out).map_err(|e| e.to_string())?;
    serde::Serializer::serialize_bytes(&mut out, data).map_err(|e| e.to_string())?;
    Ok(out.into_inner())
}

/// Error of a request named `what` that could not be packed.
pub open spec fn pack_failure(what: Seq<char>, reason: Seq<char>) -> ErrorView {
    ErrorView::Ltx("Can't pack "@ + what + " request: "@ + reason)
}

fn packed(what: &str, r: Result<Vec<u8>, String>) -> (out: Result<Vec<u8>, KirkError>)
    ensures
        match r {
            Ok(b) => out == Ok::<Vec<u8>, KirkError>(b),
            Err(m) => out matches Err(e) && e@ == pack_failure(what@, m@),
        },
{
    match r {
        Ok(b) => Ok(b),
        Err(m) => Err(KirkError::Ltx(text::cat4("Can't pack ", what, " request: ", m.as_str()))),
    }
}

/// Whether every text and payload of a request fits the length field of its
/// frame.
pub open spec fn fits_frame(ask: Ask) -> bool {
    match ask {
        Ask::Env(_, key, value) => text::byte_len(key) <= u32::MAX && text::byte_len(value)
            <= u32::MAX,
        Ask::Cwd(_, path) => text::byte_len(path) <= u32::MAX,
        Ask::GetFile(path) => text::byte_len(path) <= u32::MAX,
        Ask::SetFile(path, data) => text::byte_len(path) <= u32::MAX && data.len() <= u32::MAX,
        Ask::Execute(_, command) => text::byte_len(command) <= u32::MAX,
        _ => true,
    }
}

impl Request {
    /// Create a `VERSION` request.
    pub fn version() -> (r: Self)
        ensures
            r@ == fresh(Ask::Version),
    {
        Request::Version(VersionReq { completed: false })
    }

    /// Create a `PING` request.
    pub fn ping() -> (r: Self)
        ensures
            r@ == fresh(Ask::Ping),
    {
        Request::Ping(PingReq { completed: false, echoed: false })
    }

    /// Create an `ENV` request for `slot` (`None` addresses all slots).
    pub fn env(slot: Option<u8>, key: &str, value: &str) -> (r: Result<Self, KirkError>)
        ensures
            match (broadcast_slot(slot), r) {
                (Err(e), _) => r matches Err(x) && x@ == e,
                (Ok(id), Ok(q)) => key@.len() > 0 && value@.len() > 0 && q@ == fresh(
                    Ask::Env(id, key@, value@),
                ),
                (Ok(id), Err(x)) => if key@.len() == 0 {
                    x@ == ErrorView::Ltx("key is empty"@)
                } else {
                    value@.len() == 0 && x@ == ErrorView::Ltx("value is empty"@)
                },
            },
    {
        match check_broadcast_slot(slot) {
            Err(e) => Err(e),
            Ok(slot) => {
                if key.is_empty() {
                    return Err(ltx_error("key is empty"));
                }
                if value.is_empty() {
                    return Err(ltx_error("value is empty"));
                }
                Ok(
                    Request::Env(
                        EnvReq {
                            completed: false,
                            slot,
                            key: key.to_owned(),
                            value: value.to_owned(),
                        },
                    ),
                )
            },
        }
    }

    /// Create a `CWD` request for `slot` (`None` addresses all slots).
    pub fn cwd(slot: Option<u8>, path: &str) -> (r: Result<Self, KirkError>)
        ensures
            match (broadcast_slot(slot), r) {
                (Err(e), _) => r matches Err(x) && x@ == e,
                (Ok(id), Ok(q)) => path@.len() > 0 && q@ == fresh(Ask::Cwd(id, path@)),
                (Ok(id), Err(x)) => path@.len() == 0 && x@ == ErrorView::Ltx("path is empty"@),
            },
    {
        match check_broadcast_slot(slot) {
            Err(e) => Err(e),
            Ok(slot) => {
                if path.is_empty() {
                    return Err(ltx_error("path is empty"));
                }
                Ok(Request::Cwd(CwdReq { completed: false, slot, path: path.to_owned() }))
            },
        }
    }

    /// Create a `GET_FILE` request.
    pub fn get_file(path: &str) -> (r: Result<Self, KirkError>)
        ensures
            match r {
                Ok(q) => path@.len() > 0 && q@ == fresh(Ask::GetFile(path@)),
                Err(x) => path@.len() == 0 && x@ == ErrorView::Ltx("path is empty"@),
            },
    {
        if path.is_empty() {
            return Err(ltx_error("path is empty"));
        }
        let r = Request::GetFile(
            GetFileReq { completed: false, path: path.to_owned(), data: Vec::new() },
        );
        assert(r@ =~= fresh(Ask::GetFile(path@)));
        Ok(r)
    }

    /// Create a `SET_FILE` request.
    pub fn set_file(path: &str, data: &[u8]) -> (r: Result<Self, KirkError>)
        ensures
            match r {
                Ok(q) => path@.len() > 0 && data@.len() > 0 && q@ == fresh(
                    Ask::SetFile(path@, data@),
                ),
                Err(x) => if path@.len() == 0 {
                    x@ == ErrorView::Ltx("path is empty"@)
                } else {
                    data@.len() == 0 && x@ == ErrorView::Ltx("data is empty"@)
                },
            },
    {
        if path.is_empty() {
            return Err(ltx_error("path is empty"));
        }
        if data.len() == 0 {
            return Err(ltx_error("data is empty"));
        }
        let copy = wire::copy_range(data, 0, data.len());
        assert(copy@ =~= data@);
        Ok(Request::SetFile(SetFileReq { completed: false, path: path.to_owned(), data: copy }))
    }

    /// Create an `EXEC` request.
    pub fn execute(slot: SlotId, command: &str) -> (r: Result<Self, KirkError>)
        ensures
            match r {
                Ok(q) => command@.len() > 0 && q@ == fresh(Ask::Execute(slot.id(), command@)),
                Err(x) => command@.len() == 0 && x@ == ErrorView::Ltx("Command is empty"@),
            },
    {
        Request::execute_inner(slot, command, false)
    }

    /// Create an `EXEC` request that keeps its stdout chunks for streaming.
    pub fn execute_with_stdout(slot: SlotId, command: &str) -> (r: Result<Self, KirkError>)
        ensures
            match r {
                Ok(q) => command@.len() > 0 && q@ == (RequestView {
                    streaming: true,
                    ..fresh(Ask::Execute(slot.id(), command@))
                }),
                Err(x) => command@.len() == 0 && x@ == ErrorView::Ltx("Command is empty"@),
            },
    {
        Request::execute_inner(slot, command, true)
    }

    fn execute_inner(slot: SlotId, command: &str, streaming: bool) -> (r: Result<Self, KirkError>)
        ensures
            match r {
                Ok(q) => command@.len() > 0 && q@ == (RequestView {
                    streaming,
                    ..fresh(Ask::Execute(slot.id(), command@))
                }),
                Err(x) => command@.len() == 0 && x@ == ErrorView::Ltx("Command is empty"@),
            },
    {
        if command.is_empty() {
            return Err(ltx_error("Command is empty"));
        }
        let r = Request::Execute(
            ExecuteReq {
                completed: false,
                echoed: false,
                slot: slot.get(),
                command: command.to_owned(),
                streaming,
                streamed: Vec::new(),
                stdout: String::new(),
            },
        );
        assert(r@.streamed =~= Seq::<Seq<char>>::empty());
        Ok(r)
    }

    /// Create a `KILL` request.
    pub fn kill(slot: SlotId) -> (r: Self)
        ensures
            r@ == fresh(Ask::Kill(slot.id())),
    {
        Request::Kill(KillReq { completed: false, slot: slot.get() })
    }

    /// Pack the request into the bytes of its frame.
    ///
    /// Packing never fails; its frame is the one of the request wherever the
    /// length fields hold the lengths of its texts and data.
    pub fn pack(&self) -> (r: Result<Vec<u8>, KirkError>)
        ensures
            r is Ok,
            fits_frame(self@.ask) ==> r->Ok_0@ == wire::packed_frame(request_fields(self@.ask)),
    {
        match self {
            Request::Version(_) => packed("VERSION", pack_op(OP_VERSION)),
            Request::Ping(_) => packed("PING", pack_op(OP_PING)),
            Request::Env(req) => packed(
                "ENV",
                pack_op_slot_texts(OP_ENV, req.slot, req.key.as_str(), req.value.as_str()),
            ),
            Request::Cwd(req) => packed(
                "CWD",
                pack_op_slot_text(OP_CWD, req.slot, req.path.as_str()),
            ),
            Request::GetFile(req) => packed("GET_FILE", pack_op_text(OP_GET_FILE, req.path.as_str())),
            Request::SetFile(req) => packed(
                "SET_FILE",
                pack_op_text_bytes(OP_SET_FILE, req.path.as_str(), req.data.as_slice()),
            ),
            Request::Execute(req) => packed(
                "EXEC",
                pack_op_slot_text(OP_EXEC, req.slot, req.command.as_str()),
            ),
            Request::Kill(req) => packed("KILL", pack_op_slot(OP_KILL, req.slot)),
        }
    }

    /// Feed a decoded frame; gives the [`Reply`] exactly once, when the
    /// request completes.
    pub fn feed(&mut self, msg: &Vec<Field>) -> (r: Result<Option<Reply>, KirkError>)
        ensures
            final(self)@ == fed(old(self)@, wire::field_views(msg@)).0,
            says(r, fed(old(self)@, wire::field_views(msg@)).1),
    {
        match self {
            Request::Version(req) => req.feed(msg),
            Request::Ping(req) => req.feed(msg),
            Request::Env(req) => Ok(req.feed(msg)),
            Request::Cwd(req) => Ok(req.feed(msg)),
            Request::GetFile(req) => req.feed(msg),
            Request::SetFile(req) => Ok(req.feed(msg)),
            Request::Execute(req) => req.feed(msg),
            Request::Kill(req) => Ok(req.feed(msg)),
        }
    }

    /// Take the stdout chunks that wait to be streamed.
    pub fn take_streamed(&mut self) -> (chunks: Vec<String>)
        ensures
            text::texts(chunks@) == old(self)@.streamed,
            final(self)@ == (RequestView { streamed: Seq::empty(), ..old(self)@ }),
    {
        match self {
            Request::Execute(req) => {
                let mut chunks: Vec<String> = Vec::new();
                std::mem::swap(&mut chunks, &mut req.streamed);
                assert(text::texts(req.streamed@) =~= Seq::<Seq<char>>::empty());
                chunks
            },
            _ => {
                let chunks: Vec<String> = Vec::new();
                assert(text::texts(chunks@) =~= Seq::<Seq<char>>::empty());
                chunks
            },
        }
    }
}

impl VersionReq {
    fn feed(&mut self, msg: &Vec<Field>) -> (r: Result<Option<Reply>, KirkError>)
        ensures
            Request::Version(*final(self))@ == fed(
                Request::Version(*old(self))@,
                wire::field_views(msg@),
            ).0,
            says(r, fed(Request::Version(*old(self))@, wire::field_views(msg@)).1),
    {
        if self.completed {
            return Ok(None);
        }
        match frame_opcode(msg) {
            Some(op) => if op == OP_VERSION {
                if msg.len() <= 1 {
                    return Err(ltx_error("malformed VERSION reply"));
                }
                match msg[1].as_str() {
                    Ok(version) => {
                        self.completed = true;
                        Ok(Some(Reply::Version(version.to_owned())))
                    },
                    Err(e) => Err(e),
                }
            } else {
                Ok(None)
            },
            None => Ok(None),
        }
    }
}

impl PingReq {
    fn feed(&mut self, msg: &Vec<Field>) -> (r: Result<Option<Reply>, KirkError>)
        ensures
            Request::Ping(*final(self))@ == fed(
                Request::Ping(*old(self))@,
                wire::field_views(msg@),
            ).0,
            says(r, fed(Request::Ping(*old(self))@, wire::field_views(msg@)).1),
    {
        if self.completed {
            return Ok(None);
        }
        match frame_opcode(msg) {
            Some(op) => if op == OP_PING {
                self.echoed = true;
                Ok(None)
            } else if op == OP_PONG {
                if !self.echoed {
                    return Err(ltx_error("PONG received without PING echo"));
                }
                if msg.len() <= 1 {
                    return Err(ltx_error("malformed PONG reply"));
                }
                match msg[1].as_u64() {
                    Ok(time) => {
                        self.completed = true;
                        Ok(Some(Reply::Ping(time)))
                    },
                    Err(e) => Err(e),
                }
            } else {
                Ok(None)
            },
            None => Ok(None),
        }
    }
}

impl EnvReq {
    fn feed(&mut self, msg: &Vec<Field>) -> (r: Option<Reply>)
        ensures
            Request::Env(*final(self))@ == fed(Request::Env(*old(self))@, wire::field_views(msg@)).0,
            says(Ok(r), fed(Request::Env(*old(self))@, wire::field_views(msg@)).1),
    {
        if self.completed || !frame_targets_slot(msg, self.slot) {
            return None;
        }
        match frame_opcode(msg) {
            Some(op) => if op == OP_ENV {
                self.completed = true;
                Some(
                    Reply::Env {
                        slot: self.slot,
                        key: self.key.clone(),
                        value: self.value.clone(),
                    },
                )
            } else {
                None
            },
            None => None,
        }
    }
}

impl CwdReq {
    fn feed(&mut self, msg: &Vec<Field>) -> (r: Option<Reply>)
        ensures
            Request::Cwd(*final(self))@ == fed(Request::Cwd(*old(self))@, wire::field_views(msg@)).0,
            says(Ok(r), fed(Request::Cwd(*old(self))@, wire::field_views(msg@)).1),
    {
        if self.completed || !frame_targets_slot(msg, self.slot) {
            return None;
        }
        match frame_opcode(msg) {
            Some(op) => if op == OP_CWD {
                self.completed = true;
                Some(Reply::Cwd { slot: self.slot, path: self.path.clone() })
            } else {
                None
            },
            None => None,
        }
    }
}

fn append_bytes(to: &mut Vec<u8>, from: &[u8])
    ensures
        final(to)@ == old(to)@ + from@,
{
    let mut i: usize = 0;
    let ghost start = to@;
    while i < from.len()
        invariant
            i <= from@.len(),
            to@ == start + from@.take(i as int),
        decreases from@.len() - i,
    {
        to.push(from[i]);
        i = i + 1;
        assert(from@.take(i as int) =~= from@.take(i - 1).push(from@[i - 1]));
    }
    assert(from@.take(from@.len() as int) =~= from@);
}

/// Error for `what` of `total` bytes over `cap`.
fn over_cap(what: &str, total: u64, cap: u64) -> (e: KirkError)
    ensures
        e@ == ErrorView::Ltx(
            what@ + text::decimal_text(total as nat) + " bytes exceeds "@ + text::decimal_text(
                cap as nat,
            ) + " bytes"@,
        ),
{
    let a = text::decimal(total);
    let b = text::decimal(cap);
    KirkError::Ltx(text::cat5(what, a.as_str(), " bytes exceeds ", b.as_str(), " bytes"))
}

impl GetFileReq {
    fn feed(&mut self, msg: &Vec<Field>) -> (r: Result<Option<Reply>, KirkError>)
        ensures
            Request::GetFile(*final(self))@ == fed(
                Request::GetFile(*old(self))@,
                wire::field_views(msg@),
            ).0,
            says(r, fed(Request::GetFile(*old(self))@, wire::field_views(msg@)).1),
    {
        if self.completed {
            return Ok(None);
        }
        match frame_opcode(msg) {
            Some(op) => if op == OP_DATA {
                if msg.len() <= 1 {
                    return Err(ltx_error("malformed DATA frame"));
                }
                match msg[1].as_bytes() {
                    Ok(chunk) => {
                        let total: usize = match self.data.len().checked_add(chunk.len()) {
                            Some(total) => total,
                            None => {
                                return Err(ltx_error("GET_FILE payload size overflow"));
                            },
                        };
                        if total > MAX_FILE_BYTES {
                            return Err(
                                over_cap(
                                    "GET_FILE payload of ",
                                    total as u64,
                                    MAX_FILE_BYTES as u64,
                                ),
                            );
                        }
                        append_bytes(&mut self.data, chunk);
                        Ok(None)
                    },
                    Err(e) => Err(e),
                }
            } else if op == OP_GET_FILE {
                self.completed = true;
                let mut data: Vec<u8> = Vec::new();
                std::mem::swap(&mut data, &mut self.data);
                Ok(Some(Reply::GetFile { path: self.path.clone(), data }))
            } else {
                Ok(None)
            },
            None => Ok(None),
        }
    }
}

impl SetFileReq {
    fn feed(&mut self, msg: &Vec<Field>) -> (r: Option<Reply>)
        ensures
            Request::SetFile(*final(self))@ == fed(
                Request::SetFile(*old(self))@,
                wire::field_views(msg@),
            ).0,
            says(Ok(r), fed(Request::SetFile(*old(self))@, wire::field_views(msg@)).1),
    {
        if self.completed {
            return None;
        }
        match frame_opcode(msg) {
            Some(op) => if op == OP_SET_FILE && msg.len() > 1 {
                match msg[1].as_str() {
                    Ok(path) => if text::same(path, self.path.as_str()) {
                        self.completed = true;
                        let mut data: Vec<u8> = Vec::new();
                        std::mem::swap(&mut data, &mut self.data);
                        Some(Reply::SetFile { path: self.path.clone(), data })
                    } else {
                        None
                    },
                    Err(_) => None,
                }
            } else {
                None
            },
            None => None,
        }
    }
}

impl ExecuteReq {
    fn feed(&mut self, msg: &Vec<Field>) -> (r: Result<Option<Reply>, KirkError>)
        ensures
            Request::Execute(*final(self))@ == fed(
                Request::Execute(*old(self))@,
                wire::field_views(msg@),
            ).0,
            says(r, fed(Request::Execute(*old(self))@, wire::field_views(msg@)).1),
    {
        if self.completed || !frame_targets_slot(msg, self.slot) {
            return Ok(None);
        }
        match frame_opcode(msg) {
            Some(op) => if op == OP_EXEC {
                self.echoed = true;
                Ok(None)
            } else if op == OP_LOG {
                self.feed_log(msg)
            } else if op == OP_RESULT {
                self.feed_result(msg)
            } else {
                Ok(None)
            },
            None => Ok(None),
        }
    }

    fn feed_log(&mut self, msg: &Vec<Field>) -> (r: Result<Option<Reply>, KirkError>)
        ensures
            Request::Execute(*final(self))@ == fed_log(
                Request::Execute(*old(self))@,
                wire::field_views(msg@),
            ).0,
            says(r, fed_log(Request::Execute(*old(self))@, wire::field_views(msg@)).1),
    {
        broadcast use text::texts_push;

        if !self.echoed {
            return Err(ltx_error("LOG received without EXEC echo"));
        }
        if msg.len() <= 3 {
            return Err(ltx_error("malformed LOG frame"));
        }
        match msg[3].as_str() {
            Ok(log) => {
                if !log.is_empty() {
                    let so_far: usize = text::byte_count(self.stdout.as_str());
                    let total: usize = match so_far.checked_add(text::byte_count(log)) {
                        Some(total) => total,
                        None => {
                            return Err(ltx_error("EXEC stdout size overflow"));
                        },
                    };
                    if total > MAX_STDOUT_BYTES {
                        return Err(
                            over_cap("EXEC stdout of ", total as u64, MAX_STDOUT_BYTES as u64),
                        );
                    }
                    self.stdout.append(log);
                    if self.streaming {
                        self.streamed.push(log.to_owned());
                    }
                }
                Ok(None)
            },
            Err(e) => Err(e),
        }
    }

    fn feed_result(&mut self, msg: &Vec<Field>) -> (r: Result<Option<Reply>, KirkError>)
        ensures
            Request::Execute(*final(self))@ == fed_result(
                Request::Execute(*old(self))@,
                wire::field_views(msg@),
            ).0,
            says(r, fed_result(Request::Execute(*old(self))@, wire::field_views(msg@)).1),
    {
        if !self.echoed {
            return Err(ltx_error("RESULT received without EXEC echo"));
        }
        if msg.len() <= 2 {
            return Err(ltx_error("malformed RESULT frame"));
        }
        let time_ns: u64 = match msg[2].as_u64() {
            Ok(v) => v,
            Err(e) => {
                return Err(e);
            },
        };
        if msg.len() <= 3 {
            return Err(ltx_error("malformed RESULT frame"));
        }
        let si_code: i32 = match msg[3].as_i32() {
            Ok(v) => v,
            Err(e) => {
                return Err(e);
            },
        };
        if msg.len() <= 4 {
            return Err(ltx_error("malformed RESULT frame"));
        }
        let si_status: i32 = match msg[4].as_i32() {
            Ok(v) => v,
            Err(e) => {
                return Err(e);
            },
        };
        self.completed = true;
        let mut stdout = String::new();
        std::mem::swap(&mut stdout, &mut self.stdout);
        Ok(Some(Reply::Execute { time_ns, si_code, si_status, stdout }))
    }
}

impl KillReq {
    fn feed(&mut self, msg: &Vec<Field>) -> (r: Option<Reply>)
        ensures
            Request::Kill(*final(self))@ == fed(
                Request::Kill(*old(self))@,
                wire::field_views(msg@),
            ).0,
            says(Ok(r), fed(Request::Kill(*old(self))@, wire::field_views(msg@)).1),
    {
        if self.completed || !frame_targets_slot(msg, self.slot) {
            return None;
        }
        match frame_opcode(msg) {
            Some(op) => if op == OP_KILL {
                self.completed = true;
                Some(Reply::Kill { slot: self.slot })
            } else {
                None
            },
            None => None,
        }
    }
}

/// A completed request takes no further frame: it stays as it is and gives
/// nothing.
pub proof fn completed_is_final(r: RequestView, msg: Seq<FieldView>)
    requires
        r.completed,
    ensures
        fed(r, msg) == (r, Fed::Nothing),
{
}

/// A request is completed by a frame exactly when the frame gives its reply.
pub proof fn reply_completes(r: RequestView, msg: Seq<FieldView>)
    ensures
        fed(r, msg).0.completed <==> r.completed || fed(r, msg).1 is Reply,
        r.completed ==> !(fed(r, msg).1 is Reply),
{
}

/// A frame that breaks the protocol leaves the request as it was.
pub proof fn failure_changes_nothing(r: RequestView, msg: Seq<FieldView>)
    requires
        fed(r, msg).1 is Fail,
    ensures
        fed(r, msg).0 == r,
{
}

/// No frame makes a request keep more than its caps.
pub proof fn caps_hold(r: RequestView, msg: Seq<FieldView>)
    requires
        r.data.len() <= MAX_FILE_BYTES,
        text::byte_len(r.stdout) <= MAX_STDOUT_BYTES,
    ensures
        fed(r, msg).0.data.len() <= MAX_FILE_BYTES,
        text::byte_len(fed(r, msg).0.stdout) <= MAX_STDOUT_BYTES,
{
    assert(vstd::utf8::encode_utf8(Seq::<char>::empty()).len() == 0);
    let log = field_or(msg, 3, "malformed LOG frame"@, |f: FieldView| wire::text_in(f));
    if log is Ok {
        text::byte_len_of_concat(r.stdout, log->Ok_0);
    }
}

/// The frame of a request whose texts and data are within the field cap is
/// decoded by the peer as the fields of the request, whatever follows it.
pub proof fn request_round_trip(ask: Ask, rest: Seq<u8>)
    requires
        forall|i: int|
            0 <= i < request_fields(ask).len() ==> wire::sendable(#[trigger] request_fields(ask)[i]),
    ensures
        wire::frame_of(wire::packed_frame(request_fields(ask)) + rest) == wire::FrameStep::Whole(
            request_fields(ask),
            wire::packed_frame(request_fields(ask)).len() as int,
        ),
{
    wire::frame_round_trip(request_fields(ask), rest);
}

/// The peer answers some requests by sending them back; the others it
/// acknowledges that way.
pub proof fn echoes_answer(slot: u8, key: Seq<char>, value: Seq<char>, data: Seq<u8>)
    ensures
        fed(fresh(Ask::Env(slot, key, value)), request_fields(Ask::Env(slot, key, value))).1
            == Fed::Reply(ReplyView::Env(slot, key, value)),
        fed(fresh(Ask::Cwd(slot, value)), request_fields(Ask::Cwd(slot, value))).1 == Fed::Reply(
            ReplyView::Cwd(slot, value),
        ),
        fed(fresh(Ask::Kill(slot)), request_fields(Ask::Kill(slot))).1 == Fed::Reply(
            ReplyView::Kill(slot),
        ),
        fed(fresh(Ask::SetFile(value, data)), request_fields(Ask::SetFile(value, data))).1
            == Fed::Reply(ReplyView::SetFile(value, data)),
        fed(fresh(Ask::GetFile(value)), request_fields(Ask::GetFile(value))).1 == Fed::Reply(
            ReplyView::GetFile(value, Seq::empty()),
        ),
        fed(fresh(Ask::Execute(slot, value)), request_fields(Ask::Execute(slot, value))) == (
            RequestView { echoed: true, ..fresh(Ask::Execute(slot, value)) },
            Fed::Nothing,
        ),
        fed(fresh(Ask::Ping), request_fields(Ask::Ping)) == (
            RequestView { echoed: true, ..fresh(Ask::Ping) },
            Fed::Nothing,
        ),
{
}

/// The numbers of the operations are those of the protocol, and the
/// operation comes first.
pub proof fn operations_have_their_numbers(
    slot: u8,
    key: Seq<char>,
    value: Seq<char>,
    data: Seq<u8>,
)
    ensures
        request_fields(Ask::Version) == seq![FieldView::U64(0)],
        request_fields(Ask::Ping) == seq![FieldView::U64(1)],
        request_fields(Ask::GetFile(value)) == seq![FieldView::U64(3), FieldView::Str(value)],
        request_fields(Ask::SetFile(value, data)) == seq![
            FieldView::U64(4),
            FieldView::Str(value),
            FieldView::Bin(data),
        ],
        request_fields(Ask::Env(slot, key, value)) == seq![
            FieldView::U64(5),
            FieldView::U64(slot as u64),
            FieldView::Str(key),
            FieldView::Str(value),
        ],
        request_fields(Ask::Cwd(slot, value)) == seq![
            FieldView::U64(6),
            FieldView::U64(slot as u64),
            FieldView::Str(value),
        ],
        request_fields(Ask::Execute(slot, value)) == seq![
            FieldView::U64(7),
            FieldView::U64(slot as u64),
            FieldView::Str(value),
        ],
        request_fields(Ask::Kill(slot)) == seq![FieldView::U64(0xa1), FieldView::U64(slot as u64)],
{
}

/// A running command gathers what is logged under its slot, streams it where
/// that is asked for, and ends with the result under its slot: the time, the
/// code and the status of the result, and all that was logged.
pub proof fn commands_are_answered(
    r: RequestView,
    log: Seq<char>,
    at: FieldView,
    time: u64,
    code: i32,
    status: i32,
)
    requires
        !r.completed,
        r.ask is Execute,
        r.echoed,
        log.len() > 0,
        text::byte_len(r.stdout) + text::byte_len(log) <= 16777216,
    ensures
        ({
            let slot = FieldView::U64(r.ask->Execute_0 as u64);
            &&& fed(r, seq![FieldView::U64(9), slot, at, FieldView::Str(log)]) == (
                RequestView {
                    stdout: r.stdout + log,
                    streamed: if r.streaming {
                        r.streamed.push(log)
                    } else {
                        r.streamed
                    },
                    ..r
                },
                Fed::Nothing,
            )
            &&& fed(
                r,
                seq![
                    FieldView::U64(8),
                    slot,
                    FieldView::U64(time),
                    FieldView::I64(code as i64),
                    FieldView::I64(status as i64),
                ],
            ) == (
                RequestView { stdout: Seq::empty(), completed: true, ..r },
                Fed::Reply(ReplyView::Execute(time, code, status, r.stdout)),
            )
        }),
{
}

/// Logs and results that come before a command is acknowledged break the
/// protocol, as do logs past the cap; frames for other slots, and frames
/// of other operations, are for other requests.
pub proof fn stray_frames_are_told(
    r: RequestView,
    msg: Seq<FieldView>,
    log: Seq<char>,
    at: FieldView,
)
    requires
        !r.completed,
        r.ask is Execute,
    ensures
        msg.len() > 1 && msg[1] != FieldView::U64(r.ask->Execute_0 as u64) ==> fed(r, msg) == (
            r,
            Fed::Nothing,
        ),
        frame_opcode_of(msg) is None ==> fed(r, msg) == (r, Fed::Nothing),
        !r.echoed && (frame_opcode_of(msg) == Some(8u8) || frame_opcode_of(msg) == Some(9u8)) && (
        msg.len() == 1 || msg[1] == FieldView::U64(r.ask->Execute_0 as u64)) ==> fed(
            r,
            msg,
        ).1 is Fail,
        r.echoed && log.len() > 0 && text::byte_len(r.stdout) + text::byte_len(log) > 16777216
            ==> fed(
            r,
            seq![
                FieldView::U64(9),
                FieldView::U64(r.ask->Execute_0 as u64),
                at,
                FieldView::Str(log),
            ],
        ).1 is Fail,
        r.echoed ==> fed(
            r,
            seq![
                FieldView::U64(9),
                FieldView::U64(r.ask->Execute_0 as u64),
                at,
                FieldView::Str(Seq::empty()),
            ],
        ) == (r, Fed::Nothing),
{
}

/// A file arrives in pieces, in order, and is whole once the request comes
/// back; one past the cap is refused.
pub proof fn files_are_gathered(r: RequestView, piece: Seq<u8>)
    requires
        !r.completed,
        r.ask is GetFile,
    ensures
        r.data.len() + piece.len() <= 67108864 ==> fed(
            r,
            seq![FieldView::U64(0xa0), FieldView::Bin(piece)],
        ) == (RequestView { data: r.data + piece, ..r }, Fed::Nothing),
        r.data.len() + piece.len() > 67108864 ==> fed(
            r,
            seq![FieldView::U64(0xa0), FieldView::Bin(piece)],
        ).1 is Fail,
        fed(r, request_fields(r.ask)) == (
            RequestView { data: Seq::empty(), completed: true, ..r },
            Fed::Reply(ReplyView::GetFile(r.ask->GetFile_0, r.data)),
        ),
{
}

/// Versions and times are read from the replies of the peer; a time counts
/// only behind the acknowledgement.
pub proof fn peers_are_read(r: RequestView, version: Seq<char>, time: u64)
    requires
        !r.completed,
    ensures
        r.ask is Version ==> fed(r, seq![FieldView::U64(0), FieldView::Str(version)]) == (
            RequestView { completed: true, ..r },
            Fed::Reply(ReplyView::Version(version)),
        ),
        r.ask is Ping && r.echoed ==> fed(r, seq![FieldView::U64(2), FieldView::U64(time)]) == (
            RequestView { completed: true, ..r },
            Fed::Reply(ReplyView::Ping(time)),
        ),
        r.ask is Ping && !r.echoed ==> fed(r, seq![FieldView::U64(2), FieldView::U64(time)]).1 is Fail,
{
}

/// A request is answered only by its own operation, in its own slot or for its
/// own path.
pub proof fn replies_belong_to_requests(r: RequestView, msg: Seq<FieldView>)
    requires
        fed(r, msg).1 is Reply,
    ensures
        !r.completed,
        msg.len() > 0,
        match r.ask {
            Ask::Version => frame_opcode_of(msg) == Some(0u8) && fed(r, msg).1->Reply_0 is Version,
            Ask::Ping => frame_opcode_of(msg) == Some(2u8) && r.echoed && fed(r, msg).1->Reply_0 is Ping,
            Ask::Env(slot, _, _) => frame_opcode_of(msg) == Some(5u8) && (msg.len() == 1 || msg[1]
                == FieldView::U64(slot as u64)),
            Ask::Cwd(slot, _) => frame_opcode_of(msg) == Some(6u8) && (msg.len() == 1 || msg[1]
                == FieldView::U64(slot as u64)),
            Ask::GetFile(_) => frame_opcode_of(msg) == Some(3u8),
            Ask::SetFile(path, _) => frame_opcode_of(msg) == Some(4u8) && msg.len() > 1 && msg[1]
                == FieldView::Str(path),
            Ask::Execute(slot, _) => frame_opcode_of(msg) == Some(8u8) && r.echoed && msg.len() > 4
                && msg[1] == FieldView::U64(slot as u64),
            Ask::Kill(slot) => frame_opcode_of(msg) == Some(0xa1u8) && (msg.len() == 1 || msg[1]
                == FieldView::U64(slot as u64)),
        },
{
}

/// Variables and directories are for one slot or for all of them.
pub proof fn slots_are_addressed(id: u8)
    ensures
        broadcast_slot(None) == Ok::<u8, ErrorView>(128),
        id <= 128 ==> broadcast_slot(Some(id)) == Ok::<u8, ErrorView>(id),
        id > 128 ==> broadcast_slot(Some(id)) is Err,
{
}

} // verus!

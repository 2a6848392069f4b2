//! Fail-closed client side of daemon IPC.
//!
//! A client has at most one request in flight. Once an exchange starts writing,
//! every transport, timeout, cancellation, framing, decoding, or correlation
//! failure closes the stream before the error is returned, so no request is
//! left running on it.

use vstd::prelude::*;

use crate::connection::{ConnectionError, ConnectionErrorKind, ConnectionFailure};
use crate::daemon;
use crate::daemon::codec;
use crate::daemon::codec::{encode_message, FrameError, NdjsonCodec};
use crate::daemon::files::{FileFacts, FileKind};
use crate::daemon::process;
use crate::daemon::process::current_user;
use crate::daemon::{IpcErrorCode, IpcOperation, IpcOutcome, IpcRequest, IpcResponse};
use crate::domain;
use crate::domain::{tools_from_json, ToolInfo};
use crate::json;
use crate::json::{Json, JsonValue};
use crate::policy::retry::ErrorClass;
use crate::runtime;
use crate::runtime::Deadline;
use crate::text;
use crate::text::{padded_hex_text, str_equal};
use crate::time;
use crate::time::{Duration, Instant};
use crate::unix_path;
use crate::unix_path::parent_of;

verus! {

/// Per-stage upper bound for connecting, pinging, and every daemon request.
pub fn daemon_ipc_cap() -> (r: Duration)
    ensures
        r@ == 5_000_000_000,
{
    Duration::from_secs(5)
}

/// How long a closing stream is drained for the worker's acknowledgement.
pub fn ipc_close_ack_cap() -> (r: Duration)
    ensures
        r@ == 1_000_000_000,
{
    Duration::from_secs(1)
}

pub open spec fn failure(kind: ConnectionErrorKind, message: Seq<char>) -> ConnectionFailure {
    ConnectionFailure { kind, message }
}

/// A failure of the exchange that another attempt may not meet.
pub open spec fn operational(message: Seq<char>) -> ConnectionFailure {
    failure(ConnectionErrorKind::Classified(ErrorClass::Transient), message)
}

/// A failure that every attempt would meet.
pub open spec fn security(message: Seq<char>) -> ConnectionFailure {
    failure(ConnectionErrorKind::Classified(ErrorClass::NonTransient), message)
}

pub fn operational_error(message: &str) -> (r: ConnectionError)
    ensures
        r@ == operational(message@),
{
    ConnectionError::new(ConnectionErrorKind::Classified(ErrorClass::Transient), message)
}

pub fn security_error(message: &str) -> (r: ConnectionError)
    ensures
        r@ == security(message@),
{
    ConnectionError::new(ConnectionErrorKind::Classified(ErrorClass::NonTransient), message)
}

/// The retry category of a failure that the worker reported.
pub open spec fn response_class(code: IpcErrorCode) -> ErrorClass {
    match code {
        IpcErrorCode::NotConnected => ErrorClass::Transient,
        IpcErrorCode::ExecutionError => ErrorClass::Business,
        _ => ErrorClass::NonTransient,
    }
}

/// The failure that the worker reported, in its canonical words.
pub open spec fn reported(code: IpcErrorCode) -> ConnectionFailure {
    failure(ConnectionErrorKind::Classified(response_class(code)), daemon::code_message(code))
}

pub fn response_error(code: IpcErrorCode) -> (r: ConnectionError)
    ensures
        r@ == reported(code),
{
    let class = match code {
        IpcErrorCode::NotConnected => ErrorClass::Transient,
        IpcErrorCode::ExecutionError => ErrorClass::Business,
        _ => ErrorClass::NonTransient,
    };
    ConnectionError::new(ConnectionErrorKind::Classified(class), code.message())
}

/// The point at which a stage that starts at `now` must have ended, or why it
/// must not start.
pub open spec fn stage_deadline(
    cancelled: bool,
    deadline: nat,
    now: nat,
    operation: Seq<char>,
) -> Result<nat, ConnectionFailure> {
    if cancelled {
        Err(failure(ConnectionErrorKind::Cancelled, operation + " was cancelled"@))
    } else if deadline <= now {
        Err(failure(ConnectionErrorKind::TimedOut, operation + " timed out"@))
    } else {
        Ok(time::least(deadline, runtime::deadline_after(now, 5_000_000_000)))
    }
}

pub fn local_deadline(cancelled: bool, deadline: Deadline, now: Instant, operation: &str) -> (r:
    Result<Instant, ConnectionError>)
    ensures
        match stage_deadline(cancelled, deadline@, now@, operation@) {
            Ok(point) => r matches Ok(found) && found@ == point,
            Err(failed) => r matches Err(found) && found@ == failed,
        },
{
    if cancelled {
        let mut message = operation.to_owned();
        message.append(" was cancelled");
        return Err(ConnectionError::cancelled(message.as_str()));
    }
    let budget = deadline.remaining_at(now).min(daemon_ipc_cap());
    if budget.is_zero() {
        let mut message = operation.to_owned();
        message.append(" timed out");
        return Err(ConnectionError::timed_out(message.as_str()));
    }
    Ok(deadline.local_deadline_at(now, daemon_ipc_cap()))
}

/// Why a socket must not be connected to, for a given user.
pub open spec fn socket_failure(
    uid: u32,
    has_parent: bool,
    parent: Option<FileFacts>,
    socket: Option<FileFacts>,
) -> Option<ConnectionFailure> {
    if !has_parent {
        Some(security("daemon socket has no parent directory"@))
    } else {
        match parent {
            None => Some(operational("daemon socket parent is unavailable"@)),
            Some(directory) => if directory.kind != FileKind::Directory || directory.uid != uid {
                Some(security("daemon socket parent is unsafe"@))
            } else {
                match socket {
                    None => Some(operational("daemon socket is unavailable"@)),
                    Some(facts) => if facts.kind != FileKind::Socket || facts.uid != uid {
                        Some(security("daemon socket is unsafe"@))
                    } else {
                        None
                    },
                }
            },
        }
    }
}

/// The directory whose inspection [`validate_socket`] needs.
pub fn socket_parent(path: &[u8]) -> (r: Option<Vec<u8>>)
    ensures
        match unix_path::parent(path@) {
            Some(directory) => r matches Some(found) && found@ == directory,
            None => r is None,
        },
{
    parent_of(path)
}

/// Checks a socket and its directory, as they were inspected, for a given user.
pub fn validate_socket_as(
    uid: u32,
    path: &[u8],
    parent: Option<FileFacts>,
    socket: Option<FileFacts>,
) -> (r: Result<(), ConnectionError>)
    ensures
        match socket_failure(uid, unix_path::parent(path@) is Some, parent, socket) {
            None => r is Ok,
            Some(failed) => r matches Err(found) && found@ == failed,
        },
{
    if parent_of(path).is_none() {
        return Err(security_error("daemon socket has no parent directory"));
    }
    let directory = match parent {
        Some(directory) => directory,
        None => return Err(operational_error("daemon socket parent is unavailable")),
    };
    if directory.kind != FileKind::Directory || directory.uid != uid {
        return Err(security_error("daemon socket parent is unsafe"));
    }
    let facts = match socket {
        Some(facts) => facts,
        None => return Err(operational_error("daemon socket is unavailable")),
    };
    if facts.kind != FileKind::Socket || facts.uid != uid {
        return Err(security_error("daemon socket is unsafe"));
    }
    Ok(())
}

/// Checks a socket and its directory for the current user.
pub fn validate_socket(path: &[u8], parent: Option<FileFacts>, socket: Option<FileFacts>) -> (r:
    Result<(), ConnectionError>)
    ensures
        exists|uid: u32| #[trigger]
            process::is_current_user(uid) && match socket_failure(
                uid,
                unix_path::parent(path@) is Some,
                parent,
                socket,
            ) {
                None => r is Ok,
                Some(failed) => r matches Err(found) && found@ == failed,
            },
{
    let uid = current_user();
    validate_socket_as(uid, path, parent, socket)
}

/// The identifier behind a counter, until the counter is used up.
pub fn following_client_id(current: u64) -> (r: Result<u64, ConnectionError>)
    ensures
        current < u64::MAX ==> r == Ok::<u64, ConnectionError>((current + 1) as u64),
        current == u64::MAX ==> (r matches Err(failed) && failed@ == operational(
            "daemon IPC client identifier space was exhausted"@,
        )),
{
    if current == u64::MAX {
        Err(operational_error("daemon IPC client identifier space was exhausted"))
    } else {
        Ok(current + 1)
    }
}

/// What a stage of the connection came to.
#[derive(Clone, Copy, Debug, PartialEq, Eq, Structural)]
pub enum StageFailure {
    Io,
    TimedOut,
    Cancelled,
}

/// Why no stream was opened.
pub fn connect_failure(stage: StageFailure) -> (r: ConnectionError)
    ensures
        r@ == (match stage {
            StageFailure::Io => operational("daemon IPC connection failed"@),
            StageFailure::TimedOut => failure(
                ConnectionErrorKind::TimedOut,
                "daemon IPC connection timed out"@,
            ),
            StageFailure::Cancelled => failure(
                ConnectionErrorKind::Cancelled,
                "daemon IPC connection was cancelled"@,
            ),
        }),
{
    match stage {
        StageFailure::Io => operational_error("daemon IPC connection failed"),
        StageFailure::TimedOut => ConnectionError::timed_out("daemon IPC connection timed out"),
        StageFailure::Cancelled => ConnectionError::cancelled(
            "daemon IPC connection was cancelled",
        ),
    }
}

/// Why an exchange gave no response.
#[derive(Clone, Copy, Debug, PartialEq, Eq, Structural)]
pub enum ExchangeFailure {
    Io,
    Timeout,
    Cancelled,
    Eof,
    Frame(FrameError),
    Protocol,
}

pub open spec fn exchange_failure(failed: ExchangeFailure) -> ConnectionFailure {
    match failed {
        ExchangeFailure::Io => operational("daemon IPC transport failed"@),
        ExchangeFailure::Timeout => failure(
            ConnectionErrorKind::TimedOut,
            "daemon IPC request timed out"@,
        ),
        ExchangeFailure::Cancelled => failure(
            ConnectionErrorKind::Cancelled,
            "daemon IPC request was cancelled"@,
        ),
        ExchangeFailure::Eof => operational("daemon IPC stream ended before a response"@),
        ExchangeFailure::Frame(_) => operational("daemon IPC response framing failed"@),
        ExchangeFailure::Protocol => operational("daemon IPC response sequence was invalid"@),
    }
}

impl ExchangeFailure {
    pub fn into_connection_error(self) -> (r: ConnectionError)
        ensures
            r@ == exchange_failure(self),
    {
        match self {
            ExchangeFailure::Io => operational_error("daemon IPC transport failed"),
            ExchangeFailure::Timeout => ConnectionError::timed_out("daemon IPC request timed out"),
            ExchangeFailure::Cancelled => ConnectionError::cancelled(
                "daemon IPC request was cancelled",
            ),
            ExchangeFailure::Eof => operational_error("daemon IPC stream ended before a response"),
            ExchangeFailure::Frame(_) => operational_error("daemon IPC response framing failed"),
            ExchangeFailure::Protocol => operational_error(
                "daemon IPC response sequence was invalid",
            ),
        }
    }
}

/// What happened on the stream.
#[derive(Clone, Debug, PartialEq, Eq)]
pub enum ClientEvent {
    /// The request was written.
    Written,
    /// Bytes were read; none mean the end of the stream.
    Received(Vec<u8>),
    Failed(ExchangeFailure),
}

/// What the caller has to do next.
#[derive(Debug, PartialEq)]
pub enum ClientStep {
    /// Write these bytes.
    Send(Vec<u8>),
    /// Read from the stream.
    Receive,
    /// The request is done. Where `close` is set, the stream is shut down and
    /// drained before the result is used.
    Finished { result: Result<JsonValue, ConnectionError>, close: bool },
}

/// The content of a [`ClientStep`].
pub enum StepContent {
    Send(Seq<u8>),
    Receive,
    Finished { result: Result<Json, ConnectionFailure>, close: bool },
}

pub open spec fn shows_step(step: ClientStep, content: StepContent) -> bool {
    match content {
        StepContent::Send(frame) => step matches ClientStep::Send(bytes) && bytes@ == frame,
        StepContent::Receive => step is Receive,
        StepContent::Finished { result, close } => step matches ClientStep::Finished {
            result: returned,
            close: closes,
        } && closes == close && match result {
            Ok(data) => returned matches Ok(value) && value@ == data,
            Err(failed) => returned matches Err(found) && found@ == failed,
        },
    }
}

/// The state of one client.
#[verifier::ext_equal]
pub struct ClientContent {
    /// The stream is open.
    pub open: bool,
    pub codec: codec::CodecState,
    pub client_id: u64,
    pub next_request_id: u64,
    /// The identifier of the request in flight.
    pub pending: Option<Seq<char>>,
}

/// The identifier of a request: the client's and the request's number, each in
/// sixteen hexadecimal digits.
pub open spec fn request_id(client_id: u64, request_id: u64) -> Seq<char> {
    "dc-"@ + text::padded_hex(client_id as nat, 16) + "-"@ + text::padded_hex(
        request_id as nat,
        16,
    )
}

/// A decoder that has seen nothing.
pub open spec fn fresh_codec() -> codec::CodecState {
    codec::CodecState { line: Seq::empty(), failed: false }
}

/// A client whose stream has been given up.
pub open spec fn aborted(state: ClientContent) -> ClientContent {
    ClientContent { open: false, codec: fresh_codec(), pending: None, ..state }
}

/// The end of a request with a failure that closes the stream.
pub open spec fn closes_with(state: ClientContent, failed: ConnectionFailure) -> (
    ClientContent,
    StepContent,
) {
    (aborted(state), StepContent::Finished { result: Err(failed), close: true })
}

/// The end of a request that leaves the stream as it is.
pub open spec fn ends_with(
    state: ClientContent,
    result: Result<Json, ConnectionFailure>,
) -> (ClientContent, StepContent) {
    (
        ClientContent { pending: None, ..state },
        StepContent::Finished { result, close: false },
    )
}

/// Starts a request.
pub open spec fn begun(state: ClientContent, operation: daemon::OperationContent) -> (
    ClientContent,
    StepContent,
) {
    if state.next_request_id == u64::MAX {
        ends_with(
            state,
            Err(operational("daemon IPC request identifier space was exhausted"@)),
        )
    } else {
        let id = request_id(state.client_id, state.next_request_id);
        let counted = ClientContent {
            next_request_id: (state.next_request_id + 1) as u64,
            ..state
        };
        let request = daemon::RequestContent { id, operation };
        if !daemon::valid_operation(operation) {
            ends_with(counted, Err(operational("daemon IPC request was invalid"@)))
        } else {
            match codec::encoded::<IpcRequest>(request) {
                Err(_) => closes_with(
                    counted,
                    operational("daemon IPC request framing failed"@),
                ),
                Ok(frame) => if !state.open {
                    ends_with(counted, Err(operational("daemon IPC stream is closed"@)))
                } else {
                    (
                        ClientContent { pending: Some(id), ..counted },
                        StepContent::Send(frame),
                    )
                },
            }
        }
    }
}

/// What the bytes of one read come to.
pub open spec fn received(state: codec::CodecState, bytes: Seq<u8>) -> (
    codec::CodecState,
    Result<Option<daemon::ResponseContent>, ExchangeFailure>,
) {
    if bytes.len() == 0 {
        (
            state,
            Err(
                if state.failed {
                    ExchangeFailure::Frame(FrameError::CodecFailed)
                } else if state.line.len() == 0 {
                    ExchangeFailure::Eof
                } else if codec::ends_in_return(state.line) {
                    ExchangeFailure::Frame(FrameError::BareCarriageReturn)
                } else {
                    ExchangeFailure::Frame(FrameError::TruncatedFrame)
                },
            ),
        )
    } else {
        let (next, result) = codec::messages_of::<IpcResponse>(state, bytes);
        match result {
            Err(failed) => (next, Err(ExchangeFailure::Frame(failed))),
            Ok(responses) => if responses.len() == 0 {
                (next, Ok(None))
            } else if responses.len() != 1 || next.line.len() != 0 {
                (next, Err(ExchangeFailure::Protocol))
            } else {
                (next, Ok(Some(responses[0])))
            },
        }
    }
}

/// What a response comes to for the request that waits for it.
pub open spec fn answered(state: ClientContent, response: daemon::ResponseContent) -> (
    ClientContent,
    StepContent,
) {
    if state.pending != Some(response.id) {
        closes_with(state, operational("daemon IPC response correlation failed"@))
    } else {
        match response.outcome {
            daemon::OutcomeContent::Success(data) => ends_with(state, Ok(data)),
            daemon::OutcomeContent::Failure(code) => ends_with(state, Err(reported(code))),
        }
    }
}

/// Continues a request.
pub open spec fn advanced(state: ClientContent, event: ClientEvent) -> (
    ClientContent,
    StepContent,
) {
    match event {
        ClientEvent::Written => (state, StepContent::Receive),
        ClientEvent::Failed(failed) => closes_with(state, exchange_failure(failed)),
        ClientEvent::Received(bytes) => {
            let (next, result) = received(state.codec, bytes@);
            let after = ClientContent { codec: next, ..state };
            match result {
                Err(failed) => closes_with(after, exchange_failure(failed)),
                Ok(None) => (after, StepContent::Receive),
                Ok(Some(response)) => answered(after, response),
            }
        },
    }
}

/// A connection to a daemon over one private stream.
#[derive(Debug)]
pub struct DaemonClient {
    open: bool,
    codec: NdjsonCodec,
    client_id: u64,
    next_request_id: u64,
    pending: Option<String>,
}

impl View for DaemonClient {
    type V = ClientContent;

    closed spec fn view(&self) -> ClientContent {
        ClientContent {
            open: self.open,
            codec: self.codec@,
            client_id: self.client_id,
            next_request_id: self.next_request_id,
            pending: text::optional(self.pending),
        }
    }
}

/// A state that a client can be in.
pub open spec fn usable(state: ClientContent) -> bool {
    codec::reachable(state.codec)
}

impl DaemonClient {
    /// A client for a stream that has just been connected.
    pub fn connected(client_id: u64) -> (r: Self)
        ensures
            r@ == (ClientContent {
                open: true,
                codec: fresh_codec(),
                client_id,
                next_request_id: 1,
                pending: None,
            }),
            usable(r@),
    {
        DaemonClient {
            open: true,
            codec: NdjsonCodec::new(),
            client_id,
            next_request_id: 1,
            pending: None,
        }
    }

    pub fn is_open(&self) -> (r: bool)
        ensures
            r == self@.open,
    {
        self.open
    }

    fn next_id(&mut self) -> (r: Result<String, ConnectionError>)
        ensures
            final(self)@.codec == old(self)@.codec,
            final(self)@.open == old(self)@.open,
            final(self)@.client_id == old(self)@.client_id,
            final(self)@.pending == old(self)@.pending,
            if old(self)@.next_request_id == u64::MAX {
                final(self)@ == old(self)@ && (r matches Err(failed) && failed@ == operational(
                    "daemon IPC request identifier space was exhausted"@,
                ))
            } else {
                final(self)@.next_request_id == old(self)@.next_request_id + 1 && (r matches Ok(id)
                    && id@ == request_id(old(self)@.client_id, old(self)@.next_request_id))
            },
    {
        if self.next_request_id == u64::MAX {
            return Err(operational_error("daemon IPC request identifier space was exhausted"));
        }
        let mut id = "dc-".to_owned();
        id.append(padded_hex_text(self.client_id, 16).as_str());
        id.append("-");
        id.append(padded_hex_text(self.next_request_id, 16).as_str());
        self.next_request_id = self.next_request_id + 1;
        Ok(id)
    }

    /// Gives the stream up: the decoder starts afresh, and nothing is written
    /// any more.
    pub fn abort(&mut self)
        ensures
            final(self)@ == aborted(old(self)@),
            usable(final(self)@),
    {
        self.open = false;
        self.codec = NdjsonCodec::new();
        self.pending = None;
        assert(self@ =~= aborted(old(self)@));
    }

    fn finish(&mut self, result: Result<JsonValue, ConnectionError>) -> (r: ClientStep)
        ensures
            final(self)@ == (ClientContent { pending: None, ..old(self)@ }),
            r == (ClientStep::Finished { result, close: false }),
    {
        self.pending = None;
        assert(self@ =~= ClientContent { pending: None, ..old(self)@ });
        ClientStep::Finished { result, close: false }
    }

    fn fail_closed(&mut self, failed: ConnectionError) -> (r: ClientStep)
        ensures
            final(self)@ == aborted(old(self)@),
            usable(final(self)@),
            shows_step(r, (StepContent::Finished { result: Err(failed@), close: true })),
    {
        self.abort();
        ClientStep::Finished { result: Err(failed), close: true }
    }

    /// Starts a request on the stream.
    pub fn begin(&mut self, operation: IpcOperation) -> (r: ClientStep)
        requires
            usable(old(self)@),
        ensures
            usable(final(self)@),
            final(self)@ == begun(old(self)@, operation@).0,
            shows_step(r, begun(old(self)@, operation@).1),
    {
        let ghost before = self@;
        let id = match self.next_id() {
            Ok(id) => id,
            Err(failed) => return self.finish(Err(failed)),
        };
        proof {
            request_ids_are_valid(before.client_id, before.next_request_id);
            assert(self@ =~= ClientContent {
                next_request_id: (before.next_request_id + 1) as u64,
                ..before
            });
        }
        let request = match IpcRequest::new(id.as_str(), operation) {
            Ok(request) => request,
            Err(_) => {
                return self.finish(Err(operational_error("daemon IPC request was invalid")));
            },
        };
        let frame = match encode_message(&request) {
            Ok(frame) => frame,
            Err(_) => {
                return self.fail_closed(operational_error("daemon IPC request framing failed"));
            },
        };
        if !self.open {
            return self.finish(Err(operational_error("daemon IPC stream is closed")));
        }
        self.pending = Some(id);
        assert(self@ =~= begun(before, operation@).0);
        ClientStep::Send(frame)
    }

    fn receive(&mut self, bytes: &[u8]) -> (r: Result<Option<IpcResponse>, ExchangeFailure>)
        requires
            usable(old(self)@),
        ensures
            usable(final(self)@),
            final(self)@.open == old(self)@.open,
            final(self)@.client_id == old(self)@.client_id,
            final(self)@.next_request_id == old(self)@.next_request_id,
            final(self)@.pending == old(self)@.pending,
            bytes@.len() > 0 ==> final(self)@.codec == received(old(self)@.codec, bytes@).0,
            match received(old(self)@.codec, bytes@).1 {
                Err(failed) => r matches Err(found) && found == failed,
                Ok(None) => r matches Ok(None),
                Ok(Some(response)) => r matches Ok(Some(found)) && found@ == response,
            },
    {
        if bytes.len() == 0 {
            return match self.codec.finish() {
                Err(failed) => Err(ExchangeFailure::Frame(failed)),
                Ok(_) => Err(ExchangeFailure::Eof),
            };
        }
        let mut responses = match self.codec.push_messages::<IpcResponse>(bytes) {
            Ok(responses) => responses,
            Err(failed) => return Err(ExchangeFailure::Frame(failed)),
        };
        let ghost contents = codec::message_contents(responses@);
        assert(contents.len() == responses@.len());
        if responses.len() == 0 {
            return Ok(None);
        }
        if responses.len() != 1 || self.codec.buffered_len() != 0 {
            return Err(ExchangeFailure::Protocol);
        }
        assert(contents[0] == responses@[0]@);
        assert(responses@.last() == responses@[0]);
        Ok(responses.pop())
    }

    /// Continues the request in flight.
    pub fn advance(&mut self, event: ClientEvent) -> (r: ClientStep)
        requires
            usable(old(self)@),
        ensures
            usable(final(self)@),
            final(self)@ == advanced(old(self)@, event).0,
            shows_step(r, advanced(old(self)@, event).1),
    {
        let bytes = match event {
            ClientEvent::Written => return ClientStep::Receive,
            ClientEvent::Failed(failed) => {
                return self.fail_closed(failed.into_connection_error());
            },
            ClientEvent::Received(bytes) => bytes,
        };
        let response = match self.receive(bytes.as_slice()) {
            Err(failed) => return self.fail_closed(failed.into_connection_error()),
            Ok(None) => return ClientStep::Receive,
            Ok(Some(response)) => response,
        };
        let correlated = match &self.pending {
            Some(id) => str_equal(response.id(), id.as_str()),
            None => false,
        };
        if !correlated {
            return self.fail_closed(operational_error("daemon IPC response correlation failed"));
        }
        let (_, outcome) = response.into_parts();
        match outcome {
            IpcOutcome::Success(data) => self.finish(Ok(data)),
            IpcOutcome::Failure(body) => self.finish(Err(response_error(body.code()))),
        }
    }

    /// Takes the worker's answer to a ping. Any other answer closes the stream.
    pub fn ping_answer(&mut self, data: &JsonValue) -> (r: Result<(), ConnectionError>)
        ensures
            if data@ == Json::Str("pong"@) {
                r is Ok && final(self)@ == old(self)@
            } else {
                (r matches Err(failed) && failed@ == operational(
                    "daemon ping response was invalid"@,
                )) && final(self)@ == aborted(old(self)@)
            },
    {
        if spells(data, "pong") {
            Ok(())
        } else {
            self.abort();
            Err(operational_error("daemon ping response was invalid"))
        }
    }

    /// Takes the worker's answer to a shutdown request. The stream is closed
    /// either way.
    pub fn shutdown_answer(&mut self, data: &JsonValue) -> (r: Result<(), ConnectionError>)
        ensures
            final(self)@ == aborted(old(self)@),
            if data@ == Json::Str("closing"@) {
                r is Ok
            } else {
                r matches Err(failed) && failed@ == operational(
                    "daemon close response was invalid"@,
                )
            },
    {
        let closing = spells(data, "closing");
        self.abort();
        if closing {
            Ok(())
        } else {
            Err(operational_error("daemon close response was invalid"))
        }
    }

    /// Takes the daemon's instructions. Anything but a text or null closes the
    /// stream.
    pub fn instructions_answer(&mut self, data: &JsonValue) -> (r: Result<
        Option<String>,
        ConnectionError,
    >)
        ensures
            match data@ {
                Json::Null => r matches Ok(None) && final(self)@ == old(self)@,
                Json::Str(instructions) => (r matches Ok(Some(found)) && found@ == instructions)
                    && final(self)@ == old(self)@,
                _ => (r matches Err(failed) && failed@ == operational(
                    "daemon instructions response was invalid"@,
                )) && final(self)@ == aborted(old(self)@),
            },
    {
        proof {
            json::lemma_json_of(*data);
        }
        match data {
            JsonValue::Null => return Ok(None),
            JsonValue::String(instructions) => return Ok(Some(instructions.as_str().to_owned())),
            _ => {},
        }
        self.abort();
        Err(operational_error("daemon instructions response was invalid"))
    }

    /// Takes the daemon's list of tools. Anything else closes the stream.
    pub fn tools_answer(&mut self, data: &JsonValue) -> (r: Result<Vec<ToolInfo>, ConnectionError>)
        ensures
            match domain::tools_of(data@) {
                Some(contents) => (r matches Ok(tools) && domain::tool_contents(tools@) == contents)
                    && final(self)@ == old(self)@,
                None => (r matches Err(failed) && failed@ == operational(
                    "daemon tools response was invalid"@,
                )) && final(self)@ == aborted(old(self)@),
            },
    {
        match tools_from_json(data) {
            Some(tools) => Ok(tools),
            None => {
                self.abort();
                Err(operational_error("daemon tools response was invalid"))
            },
        }
    }
}

fn spells(data: &JsonValue, expected: &str) -> (r: bool)
    ensures
        r == (data@ == Json::Str(expected@)),
{
    match data.as_str() {
        Some(found) => str_equal(found, expected),
        None => false,
    }
}

proof fn lemma_request_id_parts(client: u64, request: u64)
    ensures
        request_id(client, request).len() == 36,
        request_id(client, request).subrange(3, 19) == text::padded_hex(client as nat, 16),
        request_id(client, request).subrange(20, 36) == text::padded_hex(request as nat, 16),
{
    reveal_strlit("dc-");
    reveal_strlit("-");
    text::padded_numerals_are_digits(client as nat, 16);
    text::padded_numerals_are_digits(request as nat, 16);
    let id = request_id(client, request);
    assert(id.subrange(3, 19) =~= text::padded_hex(client as nat, 16));
    assert(id.subrange(20, 36) =~= text::padded_hex(request as nat, 16));
}

/// Every identifier that a client makes is one that a worker accepts.
pub proof fn request_ids_are_valid(client: u64, request: u64)
    ensures
        daemon::valid_request_id(request_id(client, request)),
{
    lemma_request_id_parts(client, request);
    reveal_strlit("dc-");
    reveal_strlit("-");
    text::padded_numerals_are_digits(client as nat, 16);
    text::padded_numerals_are_digits(request as nat, 16);
    let id = request_id(client, request);
    assert forall|i: int| 0 <= i < id.len() implies '-' <= #[trigger] id[i] <= 'f' by {
        let first = text::padded_hex(client as nat, 16);
        let second = text::padded_hex(request as nat, 16);
        if 3 <= i < 19 {
            assert(id[i] == first[i - 3]);
        } else if 20 <= i < 36 {
            assert(id[i] == second[i - 20]);
        }
    }
    assert(vstd::utf8::is_ascii_chars(id));
    vstd::utf8::is_ascii_chars_encode_utf8(id);
    assert(!text::holds_control(id));
}

/// Two requests have the same identifier only if they are the same request of
/// the same client.
pub proof fn request_ids_are_unique(
    client: u64,
    request: u64,
    other_client: u64,
    other_request: u64,
)
    requires
        request_id(client, request) == request_id(other_client, other_request),
    ensures
        client == other_client,
        request == other_request,
{
    lemma_request_id_parts(client, request);
    lemma_request_id_parts(other_client, other_request);
    reveal_with_fuel(text::hex_room, 17);
    assert(text::hex_room(16) == 0x1_0000_0000_0000_0000);
    text::padded_numerals_are_distinct(client as nat, other_client as nat, 16);
    text::padded_numerals_are_distinct(request as nat, other_request as nat, 16);
}

/// Once a request has been written, its failure closes the stream: the only end
/// that leaves the stream open is a response with the request's identifier that
/// is the last thing on the stream.
pub proof fn exchanges_fail_closed(state: ClientContent, event: ClientEvent)
    requires
        usable(state),
        state.open,
    ensures
        advanced(state, event).1 matches StepContent::Finished { result, close } ==> if close {
            !advanced(state, event).0.open && result is Err
        } else {
            &&& advanced(state, event).0.open
            &&& event matches ClientEvent::Received(bytes)
            &&& received(state.codec, bytes@).1 matches Ok(Some(response))
            &&& state.pending == Some(response.id)
            &&& advanced(state, event).0.codec.line.len() == 0
        },
{
}

/// A client whose stream has been given up never sends anything.
pub proof fn closed_clients_send_nothing(
    state: ClientContent,
    operation: daemon::OperationContent,
)
    requires
        !state.open,
    ensures
        begun(state, operation).1 is Finished,
        !begun(state, operation).0.open,
{
}

/// What is sent carries an identifier that no earlier request of this client
/// had, and waits for exactly that identifier.
pub proof fn requests_are_correlated(
    state: ClientContent,
    operation: daemon::OperationContent,
    frame: Seq<u8>,
)
    requires
        begun(state, operation).1 == StepContent::Send(frame),
    ensures
        begun(state, operation).0.pending == Some(
            request_id(state.client_id, state.next_request_id),
        ),
        begun(state, operation).0.next_request_id == state.next_request_id + 1,
        codec::encoded::<IpcRequest>(
            daemon::RequestContent {
                id: request_id(state.client_id, state.next_request_id),
                operation,
            },
        ) == Ok::<Seq<u8>, FrameError>(frame),
{
}

/// A stage may start while nobody has cancelled and the deadline lies ahead. It
/// ends on the deadline or five seconds from now, whichever comes first.
pub proof fn stages_end_within_five_seconds(
    cancelled: bool,
    deadline: Deadline,
    now: Instant,
    operation: &str,
    r: Result<Instant, ConnectionError>,
)
    requires
        call_ensures(local_deadline, (cancelled, deadline, now, operation), r),
    ensures
        r is Ok <==> !cancelled && now@ < deadline@,
        r matches Ok(point) ==> {
            &&& point@ <= deadline@
            &&& point@ <= now@ + 5_000_000_000
            &&& point@ == deadline@ || point@ == now@ + 5_000_000_000 || point@
                == time::MAX_NANOS
            &&& now@ <= time::MAX_NANOS ==> now@ <= point@
        },
        cancelled ==> (r matches Err(failed) && failed@.kind is Cancelled && failed@.message
            == operation@ + " was cancelled"@),
        !cancelled && now@ >= deadline@ ==> (r matches Err(failed) && failed@.kind is TimedOut
            && failed@.message == operation@ + " timed out"@),
{
}

/// A socket may be connected to exactly where it is a socket of the user's in a
/// directory of the user's. What is missing may appear later; what is there and
/// is wrong stays wrong.
pub proof fn only_the_users_sockets_are_safe(
    uid: u32,
    path: &[u8],
    parent: Option<FileFacts>,
    socket: Option<FileFacts>,
    r: Result<(), ConnectionError>,
)
    requires
        call_ensures(validate_socket_as, (uid, path, parent, socket), r),
    ensures
        r is Ok <==> {
            &&& unix_path::parent(path@) is Some
            &&& parent matches Some(directory) && directory.kind is Directory && directory.uid
                == uid
            &&& socket matches Some(found) && found.kind is Socket && found.uid == uid
        },
        r matches Err(failed) ==> failed@.kind == ConnectionErrorKind::Classified(
            if unix_path::parent(path@) is Some && (parent is None || (socket is None && (parent
                matches Some(directory) && directory.kind is Directory && directory.uid == uid))) {
                ErrorClass::Transient
            } else {
                ErrorClass::NonTransient
            },
        ),
{
}

/// Only a worker that lost its server may be asked again; only a tool that failed
/// is a failure of the request itself.
pub proof fn reported_failures_have_their_category(code: IpcErrorCode, r: ConnectionError)
    requires
        call_ensures(response_error, (code,), r),
    ensures
        r@.kind is Classified,
        r@.kind == ConnectionErrorKind::Classified(ErrorClass::Transient) <==> code is NotConnected,
        r@.kind == ConnectionErrorKind::Classified(ErrorClass::Business) <==> code
            is ExecutionError,
        r@.kind == ConnectionErrorKind::Classified(ErrorClass::NonTransient) <==> !(code
            is NotConnected || code is ExecutionError),
        r@.message == daemon::code_message(code),
{
}

/// A stage that ran out of time or was cancelled says so; every other failure of
/// an exchange may pass.
pub proof fn exchanges_fail_for_their_own_reason(
    failed: ExchangeFailure,
    r: ConnectionError,
    stage: StageFailure,
    connection: ConnectionError,
)
    requires
        call_ensures(ExchangeFailure::into_connection_error, (failed,), r),
        call_ensures(connect_failure, (stage,), connection),
    ensures
        r@.kind is TimedOut <==> failed is Timeout,
        r@.kind is Cancelled <==> failed is Cancelled,
        r@.kind == ConnectionErrorKind::Classified(ErrorClass::Transient) <==> !(failed is Timeout
            || failed is Cancelled),
        failed is Io ==> r@.message == "daemon IPC transport failed"@,
        failed is Timeout ==> r@.message == "daemon IPC request timed out"@,
        failed is Cancelled ==> r@.message == "daemon IPC request was cancelled"@,
        failed is Eof ==> r@.message == "daemon IPC stream ended before a response"@,
        failed is Frame ==> r@.message == "daemon IPC response framing failed"@,
        failed is Protocol ==> r@.message == "daemon IPC response sequence was invalid"@,
        connection@.kind is TimedOut <==> stage is TimedOut,
        connection@.kind is Cancelled <==> stage is Cancelled,
        connection@.kind == ConnectionErrorKind::Classified(ErrorClass::Transient) <==> stage is Io,
        stage is Io ==> connection@.message == "daemon IPC connection failed"@,
        stage is TimedOut ==> connection@.message == "daemon IPC connection timed out"@,
        stage is Cancelled ==> connection@.message == "daemon IPC connection was cancelled"@,
{
}

/// A request identifier is `dc-`, the client's number, a hyphen and the request's
/// number, each number in sixteen digits that end in its last.
pub proof fn request_ids_show_their_numbers(client: u64, request: u64)
    ensures
        request_id(client, request).len() == 36,
        request_id(client, request).take(3) == "dc-"@,
        request_id(client, request)[19] == '-',
        request_id(client, request).subrange(3, 19) == text::padded_hex(client as nat, 16),
        request_id(client, request).skip(20) == text::padded_hex(request as nat, 16),
{
    reveal_strlit("dc-");
    reveal_strlit("-");
    text::padded_numerals_are_digits(client as nat, 16);
    text::padded_numerals_are_digits(request as nat, 16);
    let id = request_id(client, request);
    assert(text::padded_hex(client as nat, 16).len() == 16);
    assert(text::padded_hex(request as nat, 16).len() == 16);
    assert(id.take(3) =~= "dc-"@);
    assert(id.subrange(3, 19) =~= text::padded_hex(client as nat, 16));
    assert(id.skip(20) =~= text::padded_hex(request as nat, 16));
}

/// A valid request on an open stream is written unless its frame would be too
/// large; every number is used once, whatever became of its request, and nothing
/// else about the client changes until the answer.
pub proof fn requests_are_written_once(
    state: ClientContent,
    operation: daemon::OperationContent,
)
    ensures
        begun(state, operation).0.client_id == state.client_id,
        state.next_request_id < u64::MAX ==> begun(state, operation).0.next_request_id
            == state.next_request_id + 1,
        state.next_request_id == u64::MAX ==> begun(state, operation).0.next_request_id
            == u64::MAX,
        begun(state, operation).1 is Send <==> {
            &&& state.open
            &&& state.next_request_id < u64::MAX
            &&& daemon::valid_operation(operation)
            &&& codec::encoded::<IpcRequest>(
                daemon::RequestContent {
                    id: request_id(state.client_id, state.next_request_id),
                    operation,
                },
            ) is Ok
        },
        begun(state, operation).1 is Send ==> begun(state, operation).0.open && begun(
            state,
            operation,
        ).0.codec == state.codec,
        begun(state, operation).1 matches StepContent::Finished { result, close } ==> {
            &&& result matches Err(failed) && failed.kind == ConnectionErrorKind::Classified(
                ErrorClass::Transient,
            )
            &&& begun(state, operation).0.pending is None
            &&& begun(state, operation).0.open == (state.open && !close)
            &&& close ==> state.next_request_id < u64::MAX && daemon::valid_operation(operation)
            &&& !close ==> begun(state, operation).0.codec == state.codec
        },
        begun(state, operation).1 !is Receive,
{
}

/// A whole response on a fresh stream ends the request that it answers: with its
/// data, with the failure that it reports, or, where it answers another request,
/// with the stream closed.
pub proof fn responses_end_their_request(
    state: ClientContent,
    payload: Seq<u8>,
    response: daemon::ResponseContent,
    read: Vec<u8>,
)
    requires
        state.codec == fresh_codec(),
        codec::decoded::<IpcResponse>(payload) == Ok::<daemon::ResponseContent, FrameError>(
            response,
        ),
        !payload.contains(10),
        !payload.contains(13),
        vstd::utf8::valid_utf8(payload),
        payload.len() <= 1_048_576,
        read@ == payload.push(10),
    ensures
        ({
            let (after, step) = advanced(state, ClientEvent::Received(read));
            if state.pending == Some(response.id) {
                &&& step == (StepContent::Finished {
                    result: match response.outcome {
                        daemon::OutcomeContent::Success(data) => Ok(data),
                        daemon::OutcomeContent::Failure(code) => Err(
                            ConnectionFailure {
                                kind: ConnectionErrorKind::Classified(response_class(code)),
                                message: daemon::code_message(code),
                            },
                        ),
                    },
                    close: false,
                })
                &&& after == ClientContent { pending: None, ..state }
            } else {
                &&& step matches StepContent::Finished { result, close } && close && (result
                    matches Err(failed) && failed.message
                    == "daemon IPC response correlation failed"@)
                &&& !after.open
            }
        }),
{
    codec::terminated_payloads_are_one_frame(payload);
    codec::frames_are_decoded_one_by_one::<IpcResponse>(Seq::empty(), payload);
    assert(Seq::<Seq<u8>>::empty().push(payload) =~= seq![payload]);
    assert(Seq::<daemon::ResponseContent>::empty().push(response) =~= seq![response]);
    codec::only_documents_pass(fresh_codec(), read@, 0);
    assert(codec::messages_of::<IpcResponse>(fresh_codec(), read@) == (
        fresh_codec(),
        Ok::<Seq<daemon::ResponseContent>, FrameError>(seq![response]),
    ));
}

/// A read that completes no response is followed by another; one that brings more
/// than a single response, or the beginning of a second, is a fault, and so is the
/// end of the stream.
pub proof fn one_response_answers_one_request(
    state: ClientContent,
    read: Vec<u8>,
)
    requires
        usable(state),
    ensures
        read@.len() == 0 ==> (advanced(state, ClientEvent::Received(read)).1 matches
            StepContent::Finished { result, close } && result is Err && close),
        read@.len() > 0 ==> (codec::messages_of::<IpcResponse>(state.codec, read@).1 matches Ok(
            responses,
        ) ==> {
            let rest = codec::messages_of::<IpcResponse>(state.codec, read@).0.line;
            &&& responses.len() == 0 <==> advanced(state, ClientEvent::Received(read)).1 is Receive
            &&& responses.len() > 1 || (responses.len() == 1 && rest.len() > 0) ==> (advanced(
                state,
                ClientEvent::Received(read),
            ).1 matches StepContent::Finished { result, close } && close && (result matches Err(
                failed,
            ) && failed.message == "daemon IPC response sequence was invalid"@))
        }),
        read@.len() > 0 && codec::messages_of::<IpcResponse>(state.codec, read@).1 is Err ==> (
        advanced(state, ClientEvent::Received(read)).1 matches StepContent::Finished {
            result,
            close,
        } && close && (result matches Err(failed) && failed.message
            == "daemon IPC response framing failed"@)),
        advanced(state, ClientEvent::Written) == (state, StepContent::Receive),
{
}

/// A client that was given up is closed and waits for nothing; its numbers go on.
/// Failures of the exchange may pass, failures of safety do not.
pub proof fn given_up_clients_stay_closed(
    state: ClientContent,
    operation: daemon::OperationContent,
    message: &str,
    passing: ConnectionError,
    lasting: ConnectionError,
)
    requires
        call_ensures(operational_error, (message,), passing),
        call_ensures(security_error, (message,), lasting),
    ensures
        !aborted(state).open,
        aborted(state).pending is None,
        aborted(state).client_id == state.client_id,
        aborted(state).next_request_id == state.next_request_id,
        aborted(state).codec.line.len() == 0 && !aborted(state).codec.failed,
        begun(aborted(state), operation).1 !is Send,
        passing@.kind == ConnectionErrorKind::Classified(ErrorClass::Transient),
        lasting@.kind == ConnectionErrorKind::Classified(ErrorClass::NonTransient),
        passing@.message == message@ && lasting@.message == message@,
{
}

} // verus!

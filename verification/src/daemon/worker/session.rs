//! One client of a worker: framing, dispatch, and responses in order.

use vstd::prelude::*;

use crate::daemon;
use crate::daemon::codec;
use crate::daemon::codec::{encode_message, FrameError, NdjsonCodec};
use crate::daemon::worker::service::IdleActivity;
use crate::daemon::{
    parse_request, validate_request_id, IpcErrorCode, IpcOperation, IpcRequest, IpcResponse,
};
use crate::domain;
use crate::domain::{tools_to_json, ToolInfo};
use crate::json;
use crate::json::{parse_json, Json, JsonValue};
use crate::text;
use crate::text::str_equal;
use crate::time::Instant;

verus! {

/// How a client ended.
#[derive(Clone, Copy, Debug, PartialEq, Eq, Structural)]
pub enum ClientStop {
    Disconnected,
    CloseRequested,
}

/// A request that cannot be executed. The identifier is empty where none could
/// be read.
#[derive(Clone, Debug, PartialEq, Eq)]
pub struct RequestError {
    pub id: String,
    pub code: IpcErrorCode,
}

/// The content of a [`RequestError`].
#[verifier::ext_equal]
pub struct RequestFault {
    pub id: Seq<char>,
    pub code: IpcErrorCode,
}

pub open spec fn known_operation(name: Seq<char>) -> bool {
    name == "ping"@ || name == "listTools"@ || name == "callTool"@ || name == "getInstructions"@
        || name == "close"@
}

/// The request in a frame, or the error that answers it.
pub open spec fn request_in(frame: Seq<u8>) -> Result<daemon::RequestContent, RequestFault> {
    match json::json_document(frame) {
        None => Err(RequestFault { id: Seq::empty(), code: IpcErrorCode::InvalidJson }),
        Some(value) => match value {
            Json::Object(members) => if !members.dom().contains("id"@) {
                Err(RequestFault { id: Seq::empty(), code: IpcErrorCode::MissingId })
            } else {
                match members["id"@] {
                    Json::Str(id) => if !daemon::valid_request_id(id) {
                        Err(
                            RequestFault { id: Seq::empty(), code: IpcErrorCode::InvalidArguments },
                        )
                    } else if !(members.dom().contains("type"@) && (members["type"@] matches
                        Json::Str(name) && known_operation(name))) {
                        Err(RequestFault { id, code: IpcErrorCode::UnknownType })
                    } else {
                        match daemon::request_of(value) {
                            Ok(request) => Ok(request),
                            Err(_) => Err(
                                RequestFault { id, code: IpcErrorCode::InvalidArguments },
                            ),
                        }
                    },
                    _ => Err(
                        RequestFault { id: Seq::empty(), code: IpcErrorCode::InvalidArguments },
                    ),
                }
            },
            _ => Err(RequestFault { id: Seq::empty(), code: IpcErrorCode::MissingId }),
        },
    }
}

fn is_known_operation(name: &str) -> (r: bool)
    ensures
        r == known_operation(name@),
{
    str_equal(name, "ping") || str_equal(name, "listTools") || str_equal(name, "callTool")
        || str_equal(name, "getInstructions") || str_equal(name, "close")
}

fn without_id(code: IpcErrorCode) -> (r: RequestError)
    ensures
        r.id@ == Seq::<char>::empty(),
        r.code == code,
{
    let id = String::new();
    assert(id@ =~= Seq::<char>::empty());
    RequestError { id, code }
}

/// Reads a request out of a frame.
pub fn parse_request_frame(frame: &[u8]) -> (r: Result<IpcRequest, RequestError>)
    ensures
        match request_in(frame@) {
            Ok(content) => r matches Ok(request) && request@ == content
                && daemon::valid_request_id(content.id),
            Err(fault) => r matches Err(error) && error.id@ == fault.id && error.code == fault.code,
        },
{
    let value = match parse_json(frame) {
        Some(value) => value,
        None => return Err(without_id(IpcErrorCode::InvalidJson)),
    };
    proof {
        json::lemma_json_of(value);
    }
    let id = {
        let object = match &value {
            JsonValue::Object(object) => object,
            _ => return Err(without_id(IpcErrorCode::MissingId)),
        };
        let id = match object.get("id") {
            None => return Err(without_id(IpcErrorCode::MissingId)),
            Some(member) => match member.as_str() {
                None => return Err(without_id(IpcErrorCode::InvalidArguments)),
                Some(id) => id,
            },
        };
        if validate_request_id(id).is_err() {
            return Err(without_id(IpcErrorCode::InvalidArguments));
        }
        let known = match object.get("type") {
            None => false,
            Some(member) => match member.as_str() {
                None => false,
                Some(name) => is_known_operation(name),
            },
        };
        if !known {
            return Err(RequestError { id: id.to_owned(), code: IpcErrorCode::UnknownType });
        }
        id.to_owned()
    };
    match parse_request(value) {
        Ok(request) => Ok(request),
        Err(_) => Err(RequestError { id, code: IpcErrorCode::InvalidArguments }),
    }
}

/// What the backend came to.
#[derive(Clone, Debug, PartialEq)]
pub enum BackendReply {
    /// The operation needs nothing from the backend.
    Nothing,
    Tools(Vec<ToolInfo>),
    Value(JsonValue),
    Instructions(Option<String>),
    Failed,
}

/// The outcome that answers an operation.
pub open spec fn outcome_for(operation: daemon::OperationContent, reply: BackendReply) ->
    daemon::OutcomeContent {
    let failed = daemon::OutcomeContent::Failure(IpcErrorCode::ExecutionError);
    match operation {
        daemon::OperationContent::Ping => daemon::OutcomeContent::Success(Json::Str("pong"@)),
        daemon::OperationContent::ListTools => match reply {
            BackendReply::Tools(tools) => daemon::OutcomeContent::Success(
                domain::tools_json(domain::tool_contents(tools@)),
            ),
            _ => failed,
        },
        daemon::OperationContent::CallTool { tool_name, args } => match reply {
            BackendReply::Value(value) => daemon::OutcomeContent::Success(value@),
            _ => failed,
        },
        daemon::OperationContent::GetInstructions => match reply {
            BackendReply::Instructions(Some(instructions)) => daemon::OutcomeContent::Success(
                Json::Str(instructions@),
            ),
            _ => daemon::OutcomeContent::Success(Json::Null),
        },
        daemon::OperationContent::Close => daemon::OutcomeContent::Success(Json::Str("closing"@)),
    }
}

pub open spec fn response_for(request: daemon::RequestContent, reply: BackendReply) ->
    daemon::ResponseContent {
    daemon::ResponseContent {
        id: request.id,
        outcome: outcome_for(request.operation, reply),
    }
}

/// The bytes that answer a request.
pub enum Answer {
    /// A frame, and whether the client is dropped once it is written.
    Frame(Seq<u8>, bool),
    /// Nothing can be written.
    Unwritable,
}

pub open spec fn failure_frame(id: Seq<char>, code: IpcErrorCode, last: bool) -> Answer {
    match codec::encoded::<IpcResponse>(
        daemon::ResponseContent { id, outcome: daemon::OutcomeContent::Failure(code) },
    ) {
        Ok(frame) => Answer::Frame(frame, last),
        Err(_) => Answer::Unwritable,
    }
}

/// A response that is too large is replaced by a small failure, after which the
/// client is dropped; one that cannot be encoded otherwise by an internal
/// failure.
pub open spec fn answer_to(response: daemon::ResponseContent) -> Answer {
    match codec::encoded::<IpcResponse>(response) {
        Ok(frame) => Answer::Frame(frame, false),
        Err(FrameError::FrameTooLarge) => failure_frame(
            response.id,
            IpcErrorCode::FrameTooLarge,
            true,
        ),
        Err(_) => failure_frame(response.id, IpcErrorCode::Internal, false),
    }
}

/// An identifier that a failure can carry.
pub open spec fn answerable(id: Seq<char>) -> bool {
    id.len() == 0 || daemon::valid_request_id(id)
}

fn encode_failure(id: &str, code: IpcErrorCode) -> (r: Option<Vec<u8>>)
    requires
        answerable(id@),
    ensures
        match failure_frame(id@, code, false) {
            Answer::Frame(frame, _) => r matches Some(bytes) && bytes@ == frame,
            Answer::Unwritable => r is None,
        },
{
    match IpcResponse::failure(id, code) {
        Ok(response) => match encode_message(&response) {
            Ok(frame) => Some(frame),
            Err(_) => None,
        },
        Err(_) => None,
    }
}

/// Encodes a response, or what stands in for it. Gives the frame and whether
/// the client is dropped once it is written.
fn encode_response(response: &IpcResponse) -> (r: Option<(Vec<u8>, bool)>)
    requires
        answerable(response@.id),
    ensures
        match answer_to(response@) {
            Answer::Frame(frame, last) => r matches Some(answer) && answer.0@ == frame && answer.1
                == last,
            Answer::Unwritable => r is None,
        },
{
    match encode_message(response) {
        Ok(frame) => Some((frame, false)),
        Err(FrameError::FrameTooLarge) => match encode_failure(
            response.id(),
            IpcErrorCode::FrameTooLarge,
        ) {
            Some(frame) => Some((frame, true)),
            None => None,
        },
        Err(_) => match encode_failure(response.id(), IpcErrorCode::Internal) {
            Some(frame) => Some((frame, false)),
            None => None,
        },
    }
}

/// The response to a request, and whether the worker closes after it.
fn execute_response(request: IpcRequest, reply: BackendReply) -> (r: (Option<IpcResponse>, bool))
    requires
        daemon::valid_request_id(request@.id),
    ensures
        r.0 matches Some(response) && response@ == response_for(request@, reply),
        r.1 == (request@.operation is Close),
{
    let (id, operation) = request.into_parts();
    let (outcome, close) = match operation {
        IpcOperation::Ping => (Some(JsonValue::text("pong")), false),
        IpcOperation::ListTools => match reply {
            BackendReply::Tools(tools) => (Some(tools_to_json(tools.as_slice())), false),
            _ => (None, false),
        },
        IpcOperation::CallTool { tool_name: _, args: _ } => match reply {
            BackendReply::Value(value) => (Some(value), false),
            _ => (None, false),
        },
        IpcOperation::GetInstructions => match reply {
            BackendReply::Instructions(Some(instructions)) => (
                Some(JsonValue::text(instructions.as_str())),
                false,
            ),
            _ => (Some(JsonValue::null()), false),
        },
        IpcOperation::Close => (Some(JsonValue::text("closing")), true),
    };
    let response = match outcome {
        Some(data) => IpcResponse::success(id.as_str(), data),
        None => IpcResponse::failure(id.as_str(), IpcErrorCode::ExecutionError),
    };
    match response {
        Ok(response) => (Some(response), close),
        Err(_) => (None, close),
    }
}

/// What a session is doing.
pub enum SessionPhase {
    Reading,
    Executing(daemon::RequestContent),
    /// A frame is being written. `last` drops the client afterwards, and
    /// `close` ends the worker.
    Writing { close: bool, last: bool },
    Stopped(ClientStop),
}

/// The state of a session.
#[verifier::ext_equal]
pub struct SessionState {
    pub codec: codec::CodecState,
    /// Complete frames that have not been looked at, oldest first.
    pub queue: Seq<Seq<u8>>,
    pub phase: SessionPhase,
}

/// What a session needs next.
pub enum Need {
    Read,
    /// Execute the request, and read on meanwhile.
    Execute,
    Write(Seq<u8>),
    Stop(ClientStop),
}

/// A state that a session can be in.
pub open spec fn session_valid(state: SessionState) -> bool {
    &&& codec::reachable(state.codec)
    &&& state.phase matches SessionPhase::Executing(request) ==> daemon::valid_request_id(
        request.id,
    )
}

pub open spec fn stops(state: SessionState, stop: ClientStop) -> (SessionState, Need) {
    (SessionState { phase: SessionPhase::Stopped(stop), ..state }, Need::Stop(stop))
}

/// Starts to write an answer.
pub open spec fn answers(state: SessionState, answer: Answer, close: bool) -> (SessionState, Need) {
    match answer {
        Answer::Frame(frame, last) => (
            SessionState { phase: SessionPhase::Writing { close, last }, ..state },
            Need::Write(frame),
        ),
        Answer::Unwritable => stops(state, ClientStop::Disconnected),
    }
}

/// Takes up the oldest frame, or reads.
pub open spec fn proceeds(state: SessionState) -> (SessionState, Need) {
    if state.queue.len() == 0 {
        (SessionState { phase: SessionPhase::Reading, ..state }, Need::Read)
    } else {
        let rest = SessionState { queue: state.queue.skip(1), ..state };
        match request_in(state.queue[0]) {
            Ok(request) => (
                SessionState { phase: SessionPhase::Executing(request), ..rest },
                Need::Execute,
            ),
            Err(fault) => answers(
                rest,
                answer_to(
                    daemon::ResponseContent {
                        id: fault.id,
                        outcome: daemon::OutcomeContent::Failure(fault.code),
                    },
                ),
                false,
            ),
        }
    }
}

/// Takes bytes from the client; none mean the end of the stream.
pub open spec fn takes(state: SessionState, bytes: Seq<u8>) -> Option<SessionState> {
    if bytes.len() == 0 {
        None
    } else {
        let (next, result) = codec::frames_of(state.codec, bytes);
        match result {
            Ok(frames) => Some(
                SessionState { codec: next, queue: state.queue + frames, ..state },
            ),
            Err(_) => None,
        }
    }
}

/// What happened to a session.
#[derive(Clone, Debug, PartialEq)]
pub enum SessionEvent {
    /// Bytes were read; none mean the end of the stream.
    Received(Vec<u8>),
    Executed(BackendReply),
    Written,
    /// Reading or writing failed.
    Failed,
    /// The worker shuts down.
    Cancelled,
}

/// A session step. What does not fit the phase ends the session.
pub open spec fn session_step(state: SessionState, event: SessionEvent) -> (SessionState, Need) {
    match (state.phase, event) {
        (SessionPhase::Reading, SessionEvent::Received(bytes)) => match takes(state, bytes@) {
            Some(next) => proceeds(next),
            None => stops(state, ClientStop::Disconnected),
        },
        (SessionPhase::Executing(_), SessionEvent::Received(bytes)) => match takes(state, bytes@) {
            Some(next) => (next, Need::Execute),
            None => stops(state, ClientStop::Disconnected),
        },
        (SessionPhase::Executing(request), SessionEvent::Executed(reply)) => answers(
            state,
            answer_to(response_for(request, reply)),
            request.operation is Close,
        ),
        (SessionPhase::Writing { close, last }, SessionEvent::Written) => if last {
            stops(state, ClientStop::Disconnected)
        } else if close {
            stops(state, ClientStop::CloseRequested)
        } else {
            proceeds(state)
        },
        (SessionPhase::Stopped(stop), _) => stops(state, stop),
        _ => stops(state, ClientStop::Disconnected),
    }
}

#[derive(Debug)]
enum Phase {
    Reading,
    Executing(Option<IpcRequest>),
    Writing { close: bool, last: bool },
    Stopped(ClientStop),
}

/// What a session needs next.
#[derive(Clone, Debug, PartialEq, Eq)]
pub enum SessionAction {
    Read,
    /// Execute the request that [`ClientSession::request`] shows, and read on
    /// meanwhile.
    Execute,
    Write(Vec<u8>),
    Stop(ClientStop),
}

pub open spec fn needs(action: SessionAction, need: Need) -> bool {
    match need {
        Need::Read => action is Read,
        Need::Execute => action is Execute,
        Need::Write(frame) => action matches SessionAction::Write(bytes) && bytes@ == frame,
        Need::Stop(stop) => action matches SessionAction::Stop(reason) && reason == stop,
    }
}

/// One client. Its requests are executed one at a time and answered in order.
#[derive(Debug)]
pub struct ClientSession {
    codec: NdjsonCodec,
    queue: Vec<Vec<u8>>,
    phase: Phase,
}

impl View for ClientSession {
    type V = SessionState;

    closed spec fn view(&self) -> SessionState {
        SessionState {
            codec: self.codec@,
            queue: codec::frame_bytes(self.queue@),
            phase: match self.phase {
                Phase::Reading => SessionPhase::Reading,
                Phase::Executing(Some(request)) => SessionPhase::Executing(request@),
                Phase::Executing(None) => SessionPhase::Stopped(ClientStop::Disconnected),
                Phase::Writing { close, last } => SessionPhase::Writing { close, last },
                Phase::Stopped(stop) => SessionPhase::Stopped(stop),
            },
        }
    }
}

impl ClientSession {
    pub fn new() -> (r: Self)
        ensures
            session_valid(r@),
            r@ == (SessionState {
                codec: codec::CodecState { line: Seq::empty(), failed: false },
                queue: Seq::empty(),
                phase: SessionPhase::Reading,
            }),
    {
        let session = ClientSession {
            codec: NdjsonCodec::new(),
            queue: Vec::new(),
            phase: Phase::Reading,
        };
        assert(session@.queue =~= Seq::<Seq<u8>>::empty());
        session
    }

    /// The request that is being executed.
    pub fn request(&self) -> (r: Option<&IpcRequest>)
        ensures
            match self@.phase {
                SessionPhase::Executing(content) => r matches Some(request) && request@ == content,
                _ => r is None,
            },
    {
        match &self.phase {
            Phase::Executing(Some(request)) => Some(request),
            _ => None,
        }
    }

    fn stop(&mut self, stop: ClientStop) -> (r: SessionAction)
        requires
            session_valid(old(self)@),
        ensures
            session_valid(final(self)@),
            final(self)@ == stops(old(self)@, stop).0,
            needs(r, stops(old(self)@, stop).1),
    {
        self.phase = Phase::Stopped(stop);
        SessionAction::Stop(stop)
    }

    fn answer(&mut self, response: &IpcResponse, close: bool) -> (r: SessionAction)
        requires
            session_valid(old(self)@),
            answerable(response@.id),
        ensures
            session_valid(final(self)@),
            final(self)@ == answers(old(self)@, answer_to(response@), close).0,
            needs(r, answers(old(self)@, answer_to(response@), close).1),
    {
        match encode_response(response) {
            Some((frame, last)) => {
                self.phase = Phase::Writing { close, last };
                SessionAction::Write(frame)
            },
            None => self.stop(ClientStop::Disconnected),
        }
    }

    fn proceed(&mut self) -> (r: SessionAction)
        requires
            session_valid(old(self)@),
        ensures
            session_valid(final(self)@),
            final(self)@ == proceeds(old(self)@).0,
            needs(r, proceeds(old(self)@).1),
    {
        let ghost before = self@;
        assert(before.queue.len() == self.queue@.len());
        if self.queue.len() == 0 {
            self.phase = Phase::Reading;
            return SessionAction::Read;
        }
        assert(before.queue[0] == self.queue@[0]@);
        let frame = self.queue.remove(0);
        assert(codec::frame_bytes(self.queue@) =~= before.queue.skip(1));
        let ghost rest = self@;
        match parse_request_frame(frame.as_slice()) {
            Ok(request) => {
                self.phase = Phase::Executing(Some(request));
                SessionAction::Execute
            },
            Err(error) => {
                proof {
                    lemma_fault_is_answerable(frame@);
                }
                match IpcResponse::failure(error.id.as_str(), error.code) {
                    Ok(response) => self.answer(&response, false),
                    Err(_) => self.stop(ClientStop::Disconnected),
                }
            },
        }
    }

    /// Queues what the client sent. Fails where the client has to be dropped.
    fn take(&mut self, bytes: &[u8]) -> (r: bool)
        requires
            session_valid(old(self)@),
        ensures
            session_valid(final(self)@),
            final(self)@.phase == old(self)@.phase,
            match takes(old(self)@, bytes@) {
                Some(next) => r && final(self)@ == next,
                None => !r,
            },
            bytes@.len() == 0 ==> final(self)@.queue == old(self)@.queue,
            !r ==> final(self)@.queue == old(self)@.queue,
    {
        let ghost before = self@;
        if bytes.len() == 0 {
            let _ = self.codec.finish();
            return false;
        }
        match self.codec.push_request_frames(bytes) {
            Ok(frames) => {
                let mut frames = frames;
                let ghost added = codec::frame_bytes(frames@);
                self.queue.append(&mut frames);
                assert(codec::frame_bytes(self.queue@) =~= before.queue + added);
                assert(self@ =~= takes(before, bytes@)->0);
                true
            },
            Err(_) => false,
        }
    }

    /// Takes an event, and says what is needed next. Of a stopped session only
    /// the reason is of interest.
    pub fn step(&mut self, event: SessionEvent) -> (r: SessionAction)
        requires
            session_valid(old(self)@),
        ensures
            session_valid(final(self)@),
            needs(r, session_step(old(self)@, event).1),
            r !is Stop ==> final(self)@ == session_step(old(self)@, event).0,
            r is Stop ==> final(self)@.phase == session_step(old(self)@, event).0.phase,
    {
        let mut phase = Phase::Stopped(ClientStop::Disconnected);
        let ghost before = self@;
        core::mem::swap(&mut phase, &mut self.phase);
        match (phase, event) {
            (Phase::Reading, SessionEvent::Received(bytes)) => {
                self.phase = Phase::Reading;
                if self.take(bytes.as_slice()) {
                    self.proceed()
                } else {
                    self.stop(ClientStop::Disconnected)
                }
            },
            (Phase::Executing(Some(request)), SessionEvent::Received(bytes)) => {
                self.phase = Phase::Executing(Some(request));
                if self.take(bytes.as_slice()) {
                    SessionAction::Execute
                } else {
                    self.stop(ClientStop::Disconnected)
                }
            },
            (Phase::Executing(Some(request)), SessionEvent::Executed(reply)) => {
                let (response, close) = execute_response(request, reply);
                match response {
                    Some(response) => self.answer(&response, close),
                    None => self.stop(ClientStop::Disconnected),
                }
            },
            (Phase::Writing { close, last }, SessionEvent::Written) => {
                self.phase = Phase::Writing { close, last };
                if last {
                    self.stop(ClientStop::Disconnected)
                } else if close {
                    self.stop(ClientStop::CloseRequested)
                } else {
                    self.proceed()
                }
            },
            (Phase::Stopped(stop), _) => self.stop(stop),
            _ => self.stop(ClientStop::Disconnected),
        }
    }

    /// Takes the end of an execution. Every valid request that was executed
    /// counts as activity from the moment of its completion, whatever came of
    /// it.
    pub fn executed(
        &mut self,
        reply: BackendReply,
        completed_at: Instant,
        activity: &mut IdleActivity,
    ) -> (r: SessionAction)
        requires
            session_valid(old(self)@),
            old(self)@.phase is Executing,
        ensures
            session_valid(final(self)@),
            needs(r, session_step(old(self)@, SessionEvent::Executed(reply)).1),
            r !is Stop ==> final(self)@ == session_step(
                old(self)@,
                SessionEvent::Executed(reply),
            ).0,
            r is Stop ==> final(self)@.phase == session_step(
                old(self)@,
                SessionEvent::Executed(reply),
            ).0.phase,
            final(activity)@ == old(activity)@.push(completed_at@),
    {
        activity.record_completion(completed_at);
        self.step(SessionEvent::Executed(reply))
    }
}

/// The error for a frame carries an identifier that a failure can carry.
proof fn lemma_fault_is_answerable(frame: Seq<u8>)
    ensures
        request_in(frame) matches Err(fault) ==> answerable(fault.id),
{
}

/// What answers a request carries the request's identifier: either its
/// response, or a failure that stands in for it.
pub proof fn answers_preserve_identifiers(request: daemon::RequestContent, reply: BackendReply)
    ensures
        response_for(request, reply).id == request.id,
        answer_to(response_for(request, reply)) == (match codec::encoded::<IpcResponse>(
            response_for(request, reply),
        ) {
            Ok(frame) => Answer::Frame(frame, false),
            Err(FrameError::FrameTooLarge) => failure_frame(
                request.id,
                IpcErrorCode::FrameTooLarge,
                true,
            ),
            Err(_) => failure_frame(request.id, IpcErrorCode::Internal, false),
        }),
{
}

/// A worker is asked to close only by a `close` request, and only once its
/// answer has been written.
pub proof fn closing_follows_an_answered_close(state: SessionState, event: SessionEvent)
    requires
        session_step(state, event).1 == Need::Stop(ClientStop::CloseRequested),
        state.phase !is Stopped,
    ensures
        state.phase == (SessionPhase::Writing { close: true, last: false }),
        event is Written,
{
}

/// Only the execution of a `close` request starts to write an answer that
/// closes the worker.
pub proof fn closing_answers_belong_to_close_requests(state: SessionState, event: SessionEvent)
    requires
        session_step(state, event).0.phase matches SessionPhase::Writing { close, last } && close,
        state.phase !is Writing,
    ensures
        state.phase matches SessionPhase::Executing(request) && request.operation is Close,
        event is Executed,
{
}

/// A frame that is no valid request is answered with a failure, and the session
/// goes on with the frames behind it.
pub proof fn invalid_requests_are_recoverable(state: SessionState)
    requires
        state.queue.len() > 0,
        request_in(state.queue[0]) is Err,
    ensures
        proceeds(state).0.queue == state.queue.skip(1),
        proceeds(state).0.codec == state.codec,
        proceeds(state).1 !is Execute,
{
}

/// While one request is executed, later ones only queue up behind it, in their
/// order.
pub proof fn requests_wait_their_turn(state: SessionState, bytes: Vec<u8>)
    requires
        state.phase is Executing,
        session_step(state, SessionEvent::Received(bytes)).1 is Execute,
    ensures
        session_step(state, SessionEvent::Received(bytes)).0.phase == state.phase,
        session_step(state, SessionEvent::Received(bytes)).0.queue.take(state.queue.len() as int)
            == state.queue,
{
    assert(session_step(state, SessionEvent::Received(bytes)).0.queue.take(
        state.queue.len() as int,
    ) =~= state.queue);
}

/// A client that disconnects, sends a malformed frame, or is cancelled while its
/// request is executed ends without an answer.
pub proof fn disconnects_cancel_the_execution(state: SessionState, bytes: Vec<u8>)
    requires
        state.phase is Executing,
        takes(state, bytes@) is None,
    ensures
        session_step(state, SessionEvent::Received(bytes)).1 == Need::Stop(
            ClientStop::Disconnected,
        ),
        session_step(state, SessionEvent::Failed).1 == Need::Stop(ClientStop::Disconnected),
        session_step(state, SessionEvent::Cancelled).1 == Need::Stop(ClientStop::Disconnected),
{
}

/// A frame is read as a request, or refused for the first thing that is wrong
/// with it; the refusal names the request as soon as its identifier is known.
pub proof fn frames_are_refused_for_what_is_wrong(
    frame: &[u8],
    r: Result<IpcRequest, RequestError>,
)
    requires
        call_ensures(parse_request_frame, (frame,), r),
    ensures
        json::json_document(frame@) is None <==> (r matches Err(error) && error.code
            is InvalidJson),
        json::json_document(frame@) matches Some(value) ==> {
            &&& (value matches Json::Object(members) && members.dom().contains("id"@)) <==> !(r
                matches Err(error) && error.code is MissingId)
            &&& value matches Json::Object(members) ==> members.dom().contains("id"@) ==> (
            members["id"@] matches Json::Str(id) && daemon::valid_request_id(id)) ==> {
                &&& r matches Err(error) ==> error.id@ == members["id"@]->Str_0
                &&& (r matches Err(error) && error.code is UnknownType) <==> !(
                members.dom().contains("type"@) && (members["type"@] matches Json::Str(name) && (
                name == "ping"@ || name == "listTools"@ || name == "callTool"@ || name
                    == "getInstructions"@ || name == "close"@)))
            }
            &&& value matches Json::Object(members) ==> members.dom().contains("id"@) ==> !(
            members["id"@] matches Json::Str(id) && daemon::valid_request_id(id)) ==> (r matches
                Err(error) && error.code is InvalidArguments && error.id@.len() == 0)
        },
        r matches Ok(request) ==> daemon::request_of(json::json_document(frame@)->0) == Ok::<
            daemon::RequestContent,
            daemon::IpcModelError,
        >(request@),
        r matches Err(error) ==> {
            &&& error.code is InvalidJson || error.code is MissingId || error.code
                is InvalidArguments || error.code is UnknownType
            &&& error.id@.len() > 0 ==> daemon::valid_request_id(error.id@)
            &&& error.code is InvalidJson || error.code is MissingId ==> error.id@.len() == 0
        },
{
}

/// An answer carries what the backend gave for the operation. Only a tool list or
/// a tool call can fail.
pub proof fn operations_are_answered_with_their_reply(
    operation: daemon::OperationContent,
    reply: BackendReply,
)
    ensures
        outcome_for(operation, reply) is Failure <==> (operation is ListTools && reply !is Tools)
            || (operation is CallTool && reply !is Value),
        outcome_for(operation, reply) matches daemon::OutcomeContent::Failure(code) ==> code
            is ExecutionError,
        operation is Ping ==> outcome_for(operation, reply) == daemon::OutcomeContent::Success(
            Json::Str("pong"@),
        ),
        operation is Close ==> outcome_for(operation, reply) == daemon::OutcomeContent::Success(
            Json::Str("closing"@),
        ),
        operation is ListTools ==> (reply matches BackendReply::Tools(tools) ==> outcome_for(
            operation,
            reply,
        ) == daemon::OutcomeContent::Success(domain::tools_json(domain::tool_contents(tools@)))),
        operation is CallTool ==> (reply matches BackendReply::Value(value) ==> outcome_for(
            operation,
            reply,
        ) == daemon::OutcomeContent::Success(value@)),
        operation is GetInstructions ==> outcome_for(operation, reply)
            == daemon::OutcomeContent::Success(
            match reply {
                BackendReply::Instructions(Some(instructions)) => Json::Str(instructions@),
                _ => Json::Null,
            },
        ),
{
}

/// A response goes out as its own line. One that does not fit is replaced by a
/// failure of the same request, and the client is dropped behind it.
pub proof fn responses_go_out_as_lines(response: daemon::ResponseContent)
    ensures
        codec::encoded::<IpcResponse>(response) matches Ok(frame) ==> answer_to(response)
            == Answer::Frame(frame, false),
        answer_to(response) matches Answer::Frame(frame, last) ==> {
            ||| !last && codec::encoded::<IpcResponse>(response) == Ok::<Seq<u8>, FrameError>(frame)
            ||| last && codec::encoded::<IpcResponse>(response) == Err::<Seq<u8>, FrameError>(
                FrameError::FrameTooLarge,
            ) && codec::encoded::<IpcResponse>(
                daemon::ResponseContent {
                    id: response.id,
                    outcome: daemon::OutcomeContent::Failure(IpcErrorCode::FrameTooLarge),
                },
            ) == Ok::<Seq<u8>, FrameError>(frame)
            ||| !last && codec::encoded::<IpcResponse>(response) is Err
                && codec::encoded::<IpcResponse>(response) != Err::<Seq<u8>, FrameError>(
                FrameError::FrameTooLarge,
            ) && codec::encoded::<IpcResponse>(
                daemon::ResponseContent {
                    id: response.id,
                    outcome: daemon::OutcomeContent::Failure(IpcErrorCode::Internal),
                },
            ) == Ok::<Seq<u8>, FrameError>(frame)
        },
        answer_to(response) is Unwritable ==> codec::encoded::<IpcResponse>(response) is Err,
{
}

/// A whole request on an idle session is executed, and its answer written; then
/// the session reads on, or ends where the request was to close.
pub proof fn requests_are_served(
    state: SessionState,
    payload: Seq<u8>,
    read: Vec<u8>,
    request: daemon::RequestContent,
    reply: BackendReply,
    frame: Seq<u8>,
)
    requires
        state.phase is Reading,
        state.queue.len() == 0,
        state.codec == (codec::CodecState { line: Seq::empty(), failed: false }),
        payload.len() <= 1_048_576,
        !payload.contains(10),
        !payload.contains(13),
        vstd::utf8::valid_utf8(payload),
        read@ == payload.push(10),
        request_in(payload) == Ok::<daemon::RequestContent, RequestFault>(request),
        codec::encoded::<IpcResponse>(
            daemon::ResponseContent {
                id: request.id,
                outcome: outcome_for(request.operation, reply),
            },
        ) == Ok::<Seq<u8>, FrameError>(frame),
    ensures
        ({
            let (executing, first) = session_step(state, SessionEvent::Received(read));
            let (writing, second) = session_step(executing, SessionEvent::Executed(reply));
            let (after, third) = session_step(writing, SessionEvent::Written);
            &&& first is Execute
            &&& executing.phase == SessionPhase::Executing(request)
            &&& second == Need::Write(frame)
            &&& third == if request.operation is Close {
                Need::Stop(ClientStop::CloseRequested)
            } else {
                Need::Read
            }
            &&& request.operation !is Close ==> after == state
        }),
{
    codec::terminated_payloads_are_one_frame(payload);
    let queued = state.queue + seq![payload];
    assert(queued =~= seq![payload]);
    assert(queued.skip(1) =~= state.queue);
}

/// A refused frame is answered with its failure, and the session goes on with the
/// next one.
pub proof fn refusals_are_answered(
    state: SessionState,
    fault: RequestFault,
    frame: Seq<u8>,
)
    requires
        state.queue.len() > 0,
        request_in(state.queue[0]) == Err::<daemon::RequestContent, RequestFault>(fault),
        codec::encoded::<IpcResponse>(
            daemon::ResponseContent {
                id: fault.id,
                outcome: daemon::OutcomeContent::Failure(fault.code),
            },
        ) == Ok::<Seq<u8>, FrameError>(frame),
    ensures
        proceeds(state).1 == Need::Write(frame),
        session_step(proceeds(state).0, SessionEvent::Written) == proceeds(
            SessionState { queue: state.queue.skip(1), phase: proceeds(state).0.phase, ..state },
        ),
{
}

/// Frames are taken up in the order in which they came, each once.
pub proof fn frames_are_taken_up_in_order(state: SessionState, bytes: Seq<u8>)
    ensures
        state.queue.len() == 0 ==> proceeds(state).1 is Read && proceeds(state).0.phase is Reading,
        state.queue.len() > 0 ==> proceeds(state).0.queue == state.queue.skip(1) && proceeds(
            state,
        ).1 !is Read,
        state.queue.len() > 0 && request_in(state.queue[0]) is Ok ==> proceeds(state).1 is Execute
            && proceeds(state).0.phase == SessionPhase::Executing(request_in(state.queue[0])->Ok_0),
        proceeds(state).0.codec == state.codec,
        takes(state, bytes) is None <==> bytes.len() == 0 || codec::frames_of(
            state.codec,
            bytes,
        ).1 is Err,
        takes(state, bytes) matches Some(next) ==> next.phase == state.phase && next.codec
            == codec::frames_of(state.codec, bytes).0 && codec::frames_of(state.codec, bytes).1
            == Ok::<Seq<Seq<u8>>, FrameError>(next.queue.skip(state.queue.len() as int))
            && next.queue.take(state.queue.len() as int) == state.queue,
{
    if let Some(next) = takes(state, bytes) {
        let frames = codec::frames_of(state.codec, bytes).1->Ok_0;
        assert(next.queue.skip(state.queue.len() as int) =~= frames);
        assert(next.queue.take(state.queue.len() as int) =~= state.queue);
    }
}

/// A session ends on what it cannot go on from, and on nothing else.
pub proof fn sessions_end_for_a_reason(state: SessionState, event: SessionEvent)
    ensures
        session_step(state, event).1 is Stop <==> session_step(state, event).0.phase is Stopped,
        state.phase matches SessionPhase::Stopped(stop) ==> session_step(state, event)
            == (state, Need::Stop(stop)),
        event is Failed || event is Cancelled ==> session_step(state, event).1 is Stop,
        state.phase is Reading && session_step(state, event).1 !is Stop ==> event is Received,
        state.phase is Writing && session_step(state, event).1 !is Stop ==> event is Written,
        state.phase is Executing && session_step(state, event).1 !is Stop ==> event is Received
            || event is Executed,
        state.phase == (SessionPhase::Writing { close: false, last: false }) && event is Written
            ==> session_step(state, event) == proceeds(state),
        state.phase == (SessionPhase::Writing { close: true, last: false }) && event is Written
            ==> session_step(state, event).1 == Need::Stop(ClientStop::CloseRequested),
        state.phase matches SessionPhase::Writing { close, last } ==> last && event is Written
            ==> session_step(state, event).1 == Need::Stop(ClientStop::Disconnected),
        state.phase is Reading && (event matches SessionEvent::Received(bytes) && takes(
            state,
            bytes@,
        ) is Some) ==> session_step(state, event) == proceeds(
            takes(state, (event->Received_0)@)->0,
        ),
        state.phase is Executing && (event matches SessionEvent::Received(bytes) && takes(
            state,
            bytes@,
        ) is Some) ==> session_step(state, event) == (
            takes(state, (event->Received_0)@)->0,
            Need::Execute,
        ),
{
}

} // verus!

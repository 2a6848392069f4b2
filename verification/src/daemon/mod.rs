//! Daemon IPC and worker lifecycle.

pub mod client;
pub mod codec;
pub mod files;
pub mod metadata;
pub mod paths;
pub mod process;
pub mod publication;
pub mod stored_form;
pub mod worker;

pub use codec::{decode_message, encode_message, FrameError, NdjsonCodec, IPC_MAX_FRAME_SIZE};
pub use metadata::{MetadataError, MetadataStore, PidMetadata, PID_METADATA_MAX_BYTES};
pub use paths::{DaemonPathError, DaemonPaths};

use vstd::prelude::*;

use crate::domain::JsonObject;
use crate::json;
use crate::json::{object_text, Json, JsonValue};
use crate::text;
use crate::text::{has_control, str_equal};

verus! {

/// Maximum UTF-8 byte length of an IPC request identifier.
pub const IPC_REQUEST_ID_MAX_BYTES: usize = 128;

/// Maximum UTF-8 byte length of a tool name carried by `callTool`.
pub const IPC_TOOL_NAME_MAX_BYTES: usize = 1024;

/// Payload-free IPC model validation error suitable for safe diagnostics.
#[derive(Clone, Copy, Debug, PartialEq, Eq, Structural)]
pub enum IpcModelError {
    ExpectedObject,
    UnknownField,
    MissingId,
    InvalidId,
    MissingType,
    UnknownType,
    InvalidArguments,
    InvalidOutcome,
    InvalidError,
}

impl IpcModelError {
    pub fn display_text(self) -> (r: &'static str)
        ensures
            r@ == (match self {
                IpcModelError::ExpectedObject => "IPC message must be an object"@,
                IpcModelError::UnknownField => "IPC message contains an unknown field"@,
                IpcModelError::MissingId => "IPC request ID is required"@,
                IpcModelError::InvalidId => "IPC request ID is invalid"@,
                IpcModelError::MissingType => "IPC request type is required"@,
                IpcModelError::UnknownType => "IPC request type is unknown"@,
                IpcModelError::InvalidArguments => "IPC operation arguments are invalid"@,
                IpcModelError::InvalidOutcome => "IPC response outcome is invalid"@,
                IpcModelError::InvalidError => "IPC error body is invalid"@,
            }),
    {
        match self {
            IpcModelError::ExpectedObject => "IPC message must be an object",
            IpcModelError::UnknownField => "IPC message contains an unknown field",
            IpcModelError::MissingId => "IPC request ID is required",
            IpcModelError::InvalidId => "IPC request ID is invalid",
            IpcModelError::MissingType => "IPC request type is required",
            IpcModelError::UnknownType => "IPC request type is unknown",
            IpcModelError::InvalidArguments => "IPC operation arguments are invalid",
            IpcModelError::InvalidOutcome => "IPC response outcome is invalid",
            IpcModelError::InvalidError => "IPC error body is invalid",
        }
    }
}

/// A non-empty text of at most `limit` UTF-8 bytes without control codes.
pub open spec fn plain_label(source: Seq<char>, limit: nat) -> bool {
    &&& source.len() > 0
    &&& vstd::utf8::encode_utf8(source).len() <= limit
    &&& !text::holds_control(source)
}

/// What an IPC request identifier must be.
pub open spec fn valid_request_id(id: Seq<char>) -> bool {
    plain_label(id, IPC_REQUEST_ID_MAX_BYTES as nat)
}

/// What a tool name in a request must be.
pub open spec fn valid_tool_name(tool_name: Seq<char>) -> bool {
    plain_label(tool_name, IPC_TOOL_NAME_MAX_BYTES as nat)
}

fn is_plain_label(source: &str, limit: usize) -> (r: bool)
    ensures
        r == plain_label(source@, limit as nat),
{
    let bytes = source.as_bytes();
    proof {
        if source@.len() == 0 {
            assert(source@ =~= Seq::<char>::empty());
        }
    }
    text::chars_of(source).len() > 0 && bytes.len() <= limit && !has_control(source)
}

pub fn validate_request_id(id: &str) -> (r: Result<(), IpcModelError>)
    ensures
        r == (if valid_request_id(id@) {
            Ok(())
        } else {
            Err(IpcModelError::InvalidId)
        }),
{
    if is_plain_label(id, IPC_REQUEST_ID_MAX_BYTES) {
        Ok(())
    } else {
        Err(IpcModelError::InvalidId)
    }
}

fn validate_tool_name(tool_name: &str) -> (r: Result<(), IpcModelError>)
    ensures
        r == (if valid_tool_name(tool_name@) {
            Ok(())
        } else {
            Err(IpcModelError::InvalidArguments)
        }),
{
    if is_plain_label(tool_name, IPC_TOOL_NAME_MAX_BYTES) {
        Ok(())
    } else {
        Err(IpcModelError::InvalidArguments)
    }
}

/// Request operations exposed by the daemon wire protocol.
///
/// These are transport-independent domain values.
#[derive(Clone, Debug, PartialEq)]
pub enum IpcOperation {
    Ping,
    ListTools,
    CallTool { tool_name: String, args: JsonObject },
    GetInstructions,
    Close,
}

/// The content of an operation.
#[verifier::ext_equal]
pub enum OperationContent {
    Ping,
    ListTools,
    CallTool { tool_name: Seq<char>, args: Map<Seq<char>, Json> },
    GetInstructions,
    Close,
}

impl View for IpcOperation {
    type V = OperationContent;

    open spec fn view(&self) -> OperationContent {
        match self {
            IpcOperation::Ping => OperationContent::Ping,
            IpcOperation::ListTools => OperationContent::ListTools,
            IpcOperation::CallTool { tool_name, args } => OperationContent::CallTool {
                tool_name: tool_name@,
                args: args@,
            },
            IpcOperation::GetInstructions => OperationContent::GetInstructions,
            IpcOperation::Close => OperationContent::Close,
        }
    }
}

/// The operation can be put on the wire.
pub open spec fn valid_operation(operation: OperationContent) -> bool {
    match operation {
        OperationContent::CallTool { tool_name, .. } => valid_tool_name(tool_name),
        _ => true,
    }
}

impl IpcOperation {
    fn validate(&self) -> (r: Result<(), IpcModelError>)
        ensures
            r == (if valid_operation(self@) {
                Ok(())
            } else {
                Err(IpcModelError::InvalidArguments)
            }),
    {
        match self {
            IpcOperation::CallTool { tool_name, .. } => validate_tool_name(tool_name.as_str()),
            _ => Ok(()),
        }
    }
}

/// The members of an operation on the wire, in their order.
pub open spec fn operation_members(operation: OperationContent) -> Seq<(Seq<char>, Json)> {
    match operation {
        OperationContent::Ping => seq![("type"@, Json::Str("ping"@))],
        OperationContent::ListTools => seq![("type"@, Json::Str("listTools"@))],
        OperationContent::CallTool { tool_name, args } => seq![
            ("type"@, Json::Str("callTool"@)),
            ("toolName"@, Json::Str(tool_name)),
            ("args"@, Json::Object(args)),
        ],
        OperationContent::GetInstructions => seq![("type"@, Json::Str("getInstructions"@))],
        OperationContent::Close => seq![("type"@, Json::Str("close"@))],
    }
}

/// Every member has one of the given names.
pub open spec fn only(members: Map<Seq<char>, Json>, allowed: Seq<Seq<char>>) -> bool {
    forall|name: Seq<char>| #[trigger] members.dom().contains(name) ==> allowed.contains(name)
}

/// The operation that the members of an object describe, without `id`.
pub open spec fn operation_in(members: Map<Seq<char>, Json>) -> Result<
    OperationContent,
    IpcModelError,
> {
    let rest = members.remove("type"@);
    if !members.dom().contains("type"@) {
        Err(IpcModelError::MissingType)
    } else {
        match members["type"@] {
            Json::Str(kind) => if kind == "ping"@ {
                bare(rest, OperationContent::Ping)
            } else if kind == "listTools"@ {
                bare(rest, OperationContent::ListTools)
            } else if kind == "callTool"@ {
                call_in(rest)
            } else if kind == "getInstructions"@ {
                bare(rest, OperationContent::GetInstructions)
            } else if kind == "close"@ {
                bare(rest, OperationContent::Close)
            } else {
                Err(IpcModelError::UnknownType)
            },
            _ => Err(IpcModelError::UnknownType),
        }
    }
}

/// An operation without parameters.
pub open spec fn bare(rest: Map<Seq<char>, Json>, operation: OperationContent) -> Result<
    OperationContent,
    IpcModelError,
> {
    if only(rest, Seq::empty()) {
        Ok(operation)
    } else {
        Err(IpcModelError::UnknownField)
    }
}

/// A tool call with its parameters.
pub open spec fn call_in(rest: Map<Seq<char>, Json>) -> Result<OperationContent, IpcModelError> {
    if !only(rest, seq!["toolName"@, "args"@]) {
        Err(IpcModelError::UnknownField)
    } else if !(rest.dom().contains("toolName"@) && rest["toolName"@] is Str && valid_tool_name(
        rest["toolName"@]->Str_0,
    )) {
        Err(IpcModelError::InvalidArguments)
    } else if !(rest.dom().contains("args"@) && rest["args"@] is Object) {
        Err(IpcModelError::InvalidArguments)
    } else {
        Ok(
            OperationContent::CallTool {
                tool_name: rest["toolName"@]->Str_0,
                args: rest["args"@]->Object_0,
            },
        )
    }
}

/// The operation that a value describes.
pub open spec fn operation_of(value: Json) -> Result<OperationContent, IpcModelError> {
    match value {
        Json::Object(members) => operation_in(members),
        _ => Err(IpcModelError::ExpectedObject),
    }
}

/// The content of a request.
#[verifier::ext_equal]
pub struct RequestContent {
    pub id: Seq<char>,
    pub operation: OperationContent,
}

/// The members of a request on the wire, in their order.
pub open spec fn request_members(request: RequestContent) -> Seq<(Seq<char>, Json)> {
    seq![("id"@, Json::Str(request.id))] + operation_members(request.operation)
}

/// The request that a value describes.
pub open spec fn request_of(value: Json) -> Result<RequestContent, IpcModelError> {
    match value {
        Json::Object(members) => if !members.dom().contains("id"@) {
            Err(IpcModelError::MissingId)
        } else {
            match members["id"@] {
                Json::Str(id) => if !valid_request_id(id) {
                    Err(IpcModelError::InvalidId)
                } else {
                    match operation_in(members.remove("id"@)) {
                        Ok(operation) => Ok(RequestContent { id, operation }),
                        Err(failure) => Err(failure),
                    }
                },
                _ => Err(IpcModelError::InvalidId),
            }
        },
        _ => Err(IpcModelError::ExpectedObject),
    }
}

/// The result shows what the model says.
pub open spec fn models<T: View>(
    result: Result<T, IpcModelError>,
    model: Result<T::V, IpcModelError>,
) -> bool {
    match model {
        Ok(content) => result matches Ok(value) && value@ == content,
        Err(failure) => result matches Err(failed) && failed == failure,
    }
}

fn into_object(value: JsonValue) -> (r: Result<JsonObject, IpcModelError>)
    ensures
        match value@ {
            Json::Object(members) => r matches Ok(object) && object@ == members,
            _ => r matches Err(failure) && failure == IpcModelError::ExpectedObject,
        },
{
    proof {
        json::lemma_json_of(value);
    }
    match value {
        JsonValue::Object(object) => Ok(object),
        _ => Err(IpcModelError::ExpectedObject),
    }
}

fn take_required_string(
    object: &mut JsonObject,
    field: &str,
    missing: IpcModelError,
    invalid: IpcModelError,
) -> (r: Result<String, IpcModelError>)
    ensures
        final(object)@ == old(object)@.remove(field@),
        if !old(object)@.dom().contains(field@) {
            r matches Err(failure) && failure == missing
        } else {
            match old(object)@[field@] {
                Json::Str(found) => r matches Ok(taken) && taken@ == found,
                _ => r matches Err(failure) && failure == invalid,
            }
        },
{
    match object.remove(field) {
        None => Err(missing),
        Some(value) => {
            proof {
                json::lemma_json_of(value);
            }
            match value {
                JsonValue::String(found) => Ok(found),
                _ => Err(invalid),
            }
        },
    }
}

fn bare_operation(rest: &JsonObject, operation: IpcOperation) -> (r: Result<
    IpcOperation,
    IpcModelError,
>)
    ensures
        models(r, bare(rest@, operation@)),
{
    let allowed: [&str; 0] = [];
    proof {
        assert(text::slices(allowed@) =~= Seq::<Seq<char>>::empty());
    }
    if rest.has_only(&allowed) {
        Ok(operation)
    } else {
        Err(IpcModelError::UnknownField)
    }
}

fn parse_operation_in(object: JsonObject) -> (r: Result<IpcOperation, IpcModelError>)
    ensures
        models(r, operation_in(object@)),
{
    let mut object = object;
    let kind = match take_required_string(
        &mut object,
        "type",
        IpcModelError::MissingType,
        IpcModelError::UnknownType,
    ) {
        Ok(kind) => kind,
        Err(failure) => return Err(failure),
    };
    let kind = kind.as_str();
    if str_equal(kind, "ping") {
        return bare_operation(&object, IpcOperation::Ping);
    }
    if str_equal(kind, "listTools") {
        return bare_operation(&object, IpcOperation::ListTools);
    }
    if str_equal(kind, "callTool") {
        return parse_call(object);
    }
    if str_equal(kind, "getInstructions") {
        return bare_operation(&object, IpcOperation::GetInstructions);
    }
    if str_equal(kind, "close") {
        return bare_operation(&object, IpcOperation::Close);
    }
    Err(IpcModelError::UnknownType)
}

fn parse_call(rest: JsonObject) -> (r: Result<IpcOperation, IpcModelError>)
    ensures
        models(r, call_in(rest@)),
{
    let mut object = rest;
    let ghost members = object@;
    let allowed: [&str; 2] = ["toolName", "args"];
    proof {
        assert(text::slices(allowed@) =~= seq!["toolName"@, "args"@]);
        reveal_strlit("toolName");
        reveal_strlit("args");
        assert("toolName"@.len() != "args"@.len());
    }
    if !object.has_only(&allowed) {
        return Err(IpcModelError::UnknownField);
    }
    let tool_name = match take_required_string(
        &mut object,
        "toolName",
        IpcModelError::InvalidArguments,
        IpcModelError::InvalidArguments,
    ) {
        Ok(tool_name) => tool_name,
        Err(failure) => return Err(failure),
    };
    if let Err(failure) = validate_tool_name(tool_name.as_str()) {
        return Err(failure);
    }
    match object.remove("args") {
        Some(value) => {
            proof {
                json::lemma_json_of(value);
            }
            match value {
                JsonValue::Object(args) => Ok(IpcOperation::CallTool { tool_name, args }),
                _ => Err(IpcModelError::InvalidArguments),
            }
        },
        None => Err(IpcModelError::InvalidArguments),
    }
}

/// Reads an operation. Unknown operation names, unknown fields and malformed
/// parameters are rejected.
pub fn parse_operation(value: JsonValue) -> (r: Result<IpcOperation, IpcModelError>)
    ensures
        models(r, operation_of(value@)),
{
    match into_object(value) {
        Ok(object) => parse_operation_in(object),
        Err(failure) => Err(failure),
    }
}

/// Validated daemon request. Deserialization rejects unknown fields, invalid
/// IDs, unknown operation names, and malformed operation parameters.
#[derive(Clone, Debug, PartialEq)]
pub struct IpcRequest {
    id: String,
    operation: IpcOperation,
}

impl View for IpcRequest {
    type V = RequestContent;

    closed spec fn view(&self) -> RequestContent {
        RequestContent { id: self.id@, operation: self.operation@ }
    }
}

/// What can be said in a request.
pub open spec fn valid_request(request: RequestContent) -> bool {
    valid_request_id(request.id) && valid_operation(request.operation)
}

impl IpcRequest {
    pub fn new(id: &str, operation: IpcOperation) -> (r: Result<Self, IpcModelError>)
        ensures
            if !valid_request_id(id@) {
                r matches Err(failure) && failure == IpcModelError::InvalidId
            } else if !valid_operation(operation@) {
                r matches Err(failure) && failure == IpcModelError::InvalidArguments
            } else {
                r matches Ok(request) && request@ == (RequestContent {
                    id: id@,
                    operation: operation@,
                })
            },
    {
        if let Err(failure) = validate_request_id(id) {
            return Err(failure);
        }
        if let Err(failure) = operation.validate() {
            return Err(failure);
        }
        Ok(IpcRequest { id: id.to_owned(), operation })
    }

    pub fn id(&self) -> (r: &str)
        ensures
            r@ == self@.id,
    {
        self.id.as_str()
    }

    pub fn operation(&self) -> (r: &IpcOperation)
        ensures
            r@ == self@.operation,
    {
        &self.operation
    }

    pub fn into_parts(self) -> (r: (String, IpcOperation))
        ensures
            r.0@ == self@.id,
            r.1@ == self@.operation,
    {
        (self.id, self.operation)
    }
}

/// Reads a request.
pub fn parse_request(value: JsonValue) -> (r: Result<IpcRequest, IpcModelError>)
    ensures
        models(r, request_of(value@)),
{
    let mut object = match into_object(value) {
        Ok(object) => object,
        Err(failure) => return Err(failure),
    };
    let id = match take_required_string(
        &mut object,
        "id",
        IpcModelError::MissingId,
        IpcModelError::InvalidId,
    ) {
        Ok(id) => id,
        Err(failure) => return Err(failure),
    };
    if let Err(failure) = validate_request_id(id.as_str()) {
        return Err(failure);
    }
    match parse_operation_in(object) {
        Ok(operation) => Ok(IpcRequest { id, operation }),
        Err(failure) => Err(failure),
    }
}


/// Stable daemon error codes. Their serialized spellings are API and must not
/// be derived from implementation error text.
#[derive(Clone, Copy, Debug, PartialEq, Eq, Structural)]
pub enum IpcErrorCode {
    InvalidJson,
    MissingId,
    UnknownType,
    InvalidArguments,
    NotConnected,
    ExecutionError,
    FrameTooLarge,
    InvalidUtf8,
    TruncatedFrame,
    Internal,
}

/// The spelling of an error code.
pub open spec fn code_text(code: IpcErrorCode) -> Seq<char> {
    match code {
        IpcErrorCode::InvalidJson => "INVALID_JSON"@,
        IpcErrorCode::MissingId => "MISSING_ID"@,
        IpcErrorCode::UnknownType => "UNKNOWN_TYPE"@,
        IpcErrorCode::InvalidArguments => "INVALID_ARGUMENTS"@,
        IpcErrorCode::NotConnected => "NOT_CONNECTED"@,
        IpcErrorCode::ExecutionError => "EXECUTION_ERROR"@,
        IpcErrorCode::FrameTooLarge => "FRAME_TOO_LARGE"@,
        IpcErrorCode::InvalidUtf8 => "INVALID_UTF8"@,
        IpcErrorCode::TruncatedFrame => "TRUNCATED_FRAME"@,
        IpcErrorCode::Internal => "INTERNAL"@,
    }
}

/// The one message that goes with an error code.
pub open spec fn code_message(code: IpcErrorCode) -> Seq<char> {
    match code {
        IpcErrorCode::InvalidJson => "Invalid JSON request"@,
        IpcErrorCode::MissingId => "Request ID is required"@,
        IpcErrorCode::UnknownType => "Unknown request type"@,
        IpcErrorCode::InvalidArguments => "Invalid request arguments"@,
        IpcErrorCode::NotConnected => "Daemon backend is not connected"@,
        IpcErrorCode::ExecutionError => "Daemon operation failed"@,
        IpcErrorCode::FrameTooLarge => "IPC frame exceeds the maximum size"@,
        IpcErrorCode::InvalidUtf8 => "IPC frame is not valid UTF-8"@,
        IpcErrorCode::TruncatedFrame => "IPC frame was truncated"@,
        IpcErrorCode::Internal => "Internal daemon error"@,
    }
}

/// The code with the given spelling.
pub open spec fn code_named(name: Seq<char>) -> Option<IpcErrorCode> {
    if name == "INVALID_JSON"@ {
        Some(IpcErrorCode::InvalidJson)
    } else if name == "MISSING_ID"@ {
        Some(IpcErrorCode::MissingId)
    } else if name == "UNKNOWN_TYPE"@ {
        Some(IpcErrorCode::UnknownType)
    } else if name == "INVALID_ARGUMENTS"@ {
        Some(IpcErrorCode::InvalidArguments)
    } else if name == "NOT_CONNECTED"@ {
        Some(IpcErrorCode::NotConnected)
    } else if name == "EXECUTION_ERROR"@ {
        Some(IpcErrorCode::ExecutionError)
    } else if name == "FRAME_TOO_LARGE"@ {
        Some(IpcErrorCode::FrameTooLarge)
    } else if name == "INVALID_UTF8"@ {
        Some(IpcErrorCode::InvalidUtf8)
    } else if name == "TRUNCATED_FRAME"@ {
        Some(IpcErrorCode::TruncatedFrame)
    } else if name == "INTERNAL"@ {
        Some(IpcErrorCode::Internal)
    } else {
        None
    }
}

/// Every code is named by its spelling.
pub proof fn codes_are_named_by_their_spellings(code: IpcErrorCode)
    ensures
        code_named(code_text(code)) == Some(code),
{
    reveal_strlit("INVALID_JSON");
    reveal_strlit("MISSING_ID");
    reveal_strlit("UNKNOWN_TYPE");
    reveal_strlit("INVALID_ARGUMENTS");
    reveal_strlit("NOT_CONNECTED");
    reveal_strlit("EXECUTION_ERROR");
    reveal_strlit("FRAME_TOO_LARGE");
    reveal_strlit("INVALID_UTF8");
    reveal_strlit("TRUNCATED_FRAME");
    reveal_strlit("INTERNAL");
    // The spellings differ in length or in one of these characters.
    assert("INVALID_JSON"@.len() == 12 && "UNKNOWN_TYPE"@.len() == 12 && "INVALID_UTF8"@.len() == 12);
    assert("INVALID_JSON"@[8] == 'J' && "UNKNOWN_TYPE"@[8] == 'T' && "INVALID_UTF8"@[8] == 'U');
    assert("EXECUTION_ERROR"@.len() == 15 && "FRAME_TOO_LARGE"@.len() == 15);
    assert("TRUNCATED_FRAME"@.len() == 15);
    assert("EXECUTION_ERROR"@[0] == 'E' && "FRAME_TOO_LARGE"@[0] == 'F');
    assert("TRUNCATED_FRAME"@[0] == 'T');
    assert("MISSING_ID"@.len() == 10 && "INVALID_ARGUMENTS"@.len() == 17);
    assert("NOT_CONNECTED"@.len() == 13 && "INTERNAL"@.len() == 8);
}

impl IpcErrorCode {
    pub fn as_str(self) -> (r: &'static str)
        ensures
            r@ == code_text(self),
    {
        match self {
            IpcErrorCode::InvalidJson => "INVALID_JSON",
            IpcErrorCode::MissingId => "MISSING_ID",
            IpcErrorCode::UnknownType => "UNKNOWN_TYPE",
            IpcErrorCode::InvalidArguments => "INVALID_ARGUMENTS",
            IpcErrorCode::NotConnected => "NOT_CONNECTED",
            IpcErrorCode::ExecutionError => "EXECUTION_ERROR",
            IpcErrorCode::FrameTooLarge => "FRAME_TOO_LARGE",
            IpcErrorCode::InvalidUtf8 => "INVALID_UTF8",
            IpcErrorCode::TruncatedFrame => "TRUNCATED_FRAME",
            IpcErrorCode::Internal => "INTERNAL",
        }
    }

    pub fn message(self) -> (r: &'static str)
        ensures
            r@ == code_message(self),
    {
        match self {
            IpcErrorCode::InvalidJson => "Invalid JSON request",
            IpcErrorCode::MissingId => "Request ID is required",
            IpcErrorCode::UnknownType => "Unknown request type",
            IpcErrorCode::InvalidArguments => "Invalid request arguments",
            IpcErrorCode::NotConnected => "Daemon backend is not connected",
            IpcErrorCode::ExecutionError => "Daemon operation failed",
            IpcErrorCode::FrameTooLarge => "IPC frame exceeds the maximum size",
            IpcErrorCode::InvalidUtf8 => "IPC frame is not valid UTF-8",
            IpcErrorCode::TruncatedFrame => "IPC frame was truncated",
            IpcErrorCode::Internal => "Internal daemon error",
        }
    }

    /// The code with the given spelling.
    pub fn from_spelling(name: &str) -> (r: Option<IpcErrorCode>)
        ensures
            r == code_named(name@),
    {
        if str_equal(name, "INVALID_JSON") {
            Some(IpcErrorCode::InvalidJson)
        } else if str_equal(name, "MISSING_ID") {
            Some(IpcErrorCode::MissingId)
        } else if str_equal(name, "UNKNOWN_TYPE") {
            Some(IpcErrorCode::UnknownType)
        } else if str_equal(name, "INVALID_ARGUMENTS") {
            Some(IpcErrorCode::InvalidArguments)
        } else if str_equal(name, "NOT_CONNECTED") {
            Some(IpcErrorCode::NotConnected)
        } else if str_equal(name, "EXECUTION_ERROR") {
            Some(IpcErrorCode::ExecutionError)
        } else if str_equal(name, "FRAME_TOO_LARGE") {
            Some(IpcErrorCode::FrameTooLarge)
        } else if str_equal(name, "INVALID_UTF8") {
            Some(IpcErrorCode::InvalidUtf8)
        } else if str_equal(name, "TRUNCATED_FRAME") {
            Some(IpcErrorCode::TruncatedFrame)
        } else if str_equal(name, "INTERNAL") {
            Some(IpcErrorCode::Internal)
        } else {
            None
        }
    }
}

/// The code that a value spells: a string, or an object whose only member has
/// the spelling for its name and `null` for its value.
pub open spec fn error_code_of(value: Json) -> Option<IpcErrorCode> {
    match value {
        Json::Str(name) => code_named(name),
        Json::Object(members) => if exists|name: Seq<char>|
            members == #[trigger] Map::<Seq<char>, Json>::empty().insert(name, Json::Null) {
            code_named(
                choose|name: Seq<char>|
                    members == #[trigger] Map::<Seq<char>, Json>::empty().insert(name, Json::Null),
            )
        } else {
            None
        },
        _ => None,
    }
}

fn parse_error_code(value: &JsonValue) -> (r: Option<IpcErrorCode>)
    ensures
        r == error_code_of(value@),
{
    proof {
        json::lemma_json_of(*value);
    }
    match value {
        JsonValue::String(name) => IpcErrorCode::from_spelling(name.as_str()),
        JsonValue::Object(object) => {
            let (name, inner) = match object.single_member() {
                Some(member) => member,
                None => return None,
            };
            proof {
                json::lemma_json_of(*inner);
                let empty = Map::<Seq<char>, Json>::empty();
                assert(object@.dom().contains(name@));
                assert(object@[name@] == inner@);
                assert forall|other: Seq<char>| object@ == #[trigger] empty.insert(
                    other,
                    Json::Null,
                ) implies other == name@ && inner@ == Json::Null by {
                    assert(empty.insert(other, Json::Null).dom().contains(name@));
                }
                if inner@ == Json::Null {
                    assert(object@ == empty.insert(name@, Json::Null));
                }
            }
            match inner {
                JsonValue::Null => IpcErrorCode::from_spelling(name),
                _ => None,
            }
        },
        _ => None,
    }
}

/// Stable error body. Only the canonical message for a code is accepted on
/// the wire, preventing arbitrary payload or secret text from being reflected.
#[derive(Clone, Copy, Debug, PartialEq, Eq, Structural)]
pub struct IpcErrorBody {
    code: IpcErrorCode,
}

impl View for IpcErrorBody {
    type V = IpcErrorCode;

    closed spec fn view(&self) -> IpcErrorCode {
        self.code
    }
}

impl IpcErrorBody {
    pub fn new(code: IpcErrorCode) -> (r: Self)
        ensures
            r@ == code,
    {
        IpcErrorBody { code }
    }

    pub fn code(&self) -> (r: IpcErrorCode)
        ensures
            r == self@,
    {
        self.code
    }

    pub fn message(&self) -> (r: &'static str)
        ensures
            r@ == code_message(self@),
    {
        self.code.message()
    }
}

/// The members of an error body on the wire, in their order.
pub open spec fn error_members(code: IpcErrorCode) -> Seq<(Seq<char>, Json)> {
    seq![("code"@, Json::Str(code_text(code))), ("message"@, Json::Str(code_message(code)))]
}

/// The error body that a value describes.
pub open spec fn error_body_of(value: Json) -> Result<IpcErrorCode, IpcModelError> {
    match value {
        Json::Object(members) => if only(members, seq!["code"@, "message"@])
            && members.dom().contains("code"@) && members.dom().contains("message"@) {
            match error_code_of(members["code"@]) {
                Some(code) => if members["message"@] == Json::Str(code_message(code)) {
                    Ok(code)
                } else {
                    Err(IpcModelError::InvalidError)
                },
                None => Err(IpcModelError::InvalidError),
            }
        } else {
            Err(IpcModelError::InvalidError)
        },
        _ => Err(IpcModelError::InvalidError),
    }
}

/// Reads an error body.
pub fn parse_error_body(value: JsonValue) -> (r: Result<IpcErrorBody, IpcModelError>)
    ensures
        models(r, error_body_of(value@)),
{
    let object = match into_object(value) {
        Ok(object) => object,
        Err(_) => return Err(IpcModelError::InvalidError),
    };
    let allowed: [&str; 2] = ["code", "message"];
    proof {
        assert(text::slices(allowed@) =~= seq!["code"@, "message"@]);
    }
    if !object.has_only(&allowed) {
        return Err(IpcModelError::InvalidError);
    }
    let code = match object.get("code") {
        Some(code_value) => match parse_error_code(code_value) {
            Some(code) => code,
            None => return Err(IpcModelError::InvalidError),
        },
        None => return Err(IpcModelError::InvalidError),
    };
    let message = match object.get("message") {
        Some(message_value) => match message_value.as_str() {
            Some(message) => message,
            None => return Err(IpcModelError::InvalidError),
        },
        None => return Err(IpcModelError::InvalidError),
    };
    if !str_equal(message, code.message()) {
        return Err(IpcModelError::InvalidError);
    }
    Ok(IpcErrorBody::new(code))
}

/// Exactly one response outcome: either `success + data` or `failure + error`.
#[derive(Clone, Debug, PartialEq)]
pub enum IpcOutcome {
    Success(JsonValue),
    Failure(IpcErrorBody),
}

/// The content of an outcome.
pub enum OutcomeContent {
    Success(Json),
    Failure(IpcErrorCode),
}

impl View for IpcOutcome {
    type V = OutcomeContent;

    open spec fn view(&self) -> OutcomeContent {
        match self {
            IpcOutcome::Success(data) => OutcomeContent::Success(data@),
            IpcOutcome::Failure(error) => OutcomeContent::Failure(error@),
        }
    }
}

/// The members of an outcome on the wire, in their order.
pub open spec fn outcome_members(outcome: OutcomeContent) -> Seq<(Seq<char>, Json)> {
    match outcome {
        OutcomeContent::Success(data) => seq![("success"@, Json::Bool(true)), ("data"@, data)],
        OutcomeContent::Failure(code) => seq![
            ("success"@, Json::Bool(false)),
            ("error"@, Json::Object(json::member_map(error_members(code)))),
        ],
    }
}

/// The outcome that the members of an object describe, without `id`.
pub open spec fn outcome_in(members: Map<Seq<char>, Json>) -> Result<
    OutcomeContent,
    IpcModelError,
> {
    let rest = members.remove("success"@);
    if !members.dom().contains("success"@) {
        Err(IpcModelError::InvalidOutcome)
    } else {
        match members["success"@] {
            Json::Bool(success) => if success {
                if only(rest, seq!["data"@]) && rest.dom().contains("data"@) {
                    Ok(OutcomeContent::Success(rest["data"@]))
                } else {
                    Err(IpcModelError::InvalidOutcome)
                }
            } else {
                if only(rest, seq!["error"@]) && rest.dom().contains("error"@) {
                    match error_body_of(rest["error"@]) {
                        Ok(code) => Ok(OutcomeContent::Failure(code)),
                        Err(failure) => Err(failure),
                    }
                } else {
                    Err(IpcModelError::InvalidOutcome)
                }
            },
            _ => Err(IpcModelError::InvalidOutcome),
        }
    }
}

/// The outcome that a value describes.
pub open spec fn outcome_of(value: Json) -> Result<OutcomeContent, IpcModelError> {
    match value {
        Json::Object(members) => outcome_in(members),
        _ => Err(IpcModelError::InvalidOutcome),
    }
}

fn parse_outcome_in(object: JsonObject) -> (r: Result<IpcOutcome, IpcModelError>)
    ensures
        models(r, outcome_in(object@)),
{
    let mut object = object;
    let success = match object.remove("success") {
        Some(value) => {
            proof {
                json::lemma_json_of(value);
            }
            match value {
                JsonValue::Bool(success) => success,
                _ => return Err(IpcModelError::InvalidOutcome),
            }
        },
        None => return Err(IpcModelError::InvalidOutcome),
    };
    if success {
        let allowed: [&str; 1] = ["data"];
        proof {
            assert(text::slices(allowed@) =~= seq!["data"@]);
        }
        if !object.has_only(&allowed) {
            return Err(IpcModelError::InvalidOutcome);
        }
        match object.remove("data") {
            Some(data) => Ok(IpcOutcome::Success(data)),
            None => Err(IpcModelError::InvalidOutcome),
        }
    } else {
        let allowed: [&str; 1] = ["error"];
        proof {
            assert(text::slices(allowed@) =~= seq!["error"@]);
        }
        if !object.has_only(&allowed) {
            return Err(IpcModelError::InvalidOutcome);
        }
        match object.remove("error") {
            Some(value) => match parse_error_body(value) {
                Ok(body) => Ok(IpcOutcome::Failure(body)),
                Err(failure) => Err(failure),
            },
            None => Err(IpcModelError::InvalidOutcome),
        }
    }
}

/// Reads an outcome.
pub fn parse_outcome(value: JsonValue) -> (r: Result<IpcOutcome, IpcModelError>)
    ensures
        models(r, outcome_of(value@)),
{
    match into_object(value) {
        Ok(object) => parse_outcome_in(object),
        Err(_) => Err(IpcModelError::InvalidOutcome),
    }
}

/// Correlated daemon response with a validated request ID and strict outcome.
#[derive(Clone, Debug, PartialEq)]
pub struct IpcResponse {
    id: String,
    outcome: IpcOutcome,
}

/// The content of a response.
pub struct ResponseContent {
    pub id: Seq<char>,
    pub outcome: OutcomeContent,
}

impl View for IpcResponse {
    type V = ResponseContent;

    closed spec fn view(&self) -> ResponseContent {
        ResponseContent { id: self.id@, outcome: self.outcome@ }
    }
}

/// A response carries the identifier of its request. Only a failure can do
/// without one, where the request had none that could be read.
pub open spec fn valid_response(response: ResponseContent) -> bool {
    if response.id.len() == 0 {
        response.outcome is Failure
    } else {
        valid_request_id(response.id)
    }
}

/// The response made of an identifier and an outcome.
pub open spec fn response_from(id: Seq<char>, outcome: OutcomeContent) -> Result<
    ResponseContent,
    IpcModelError,
> {
    if valid_response(ResponseContent { id, outcome }) {
        Ok(ResponseContent { id, outcome })
    } else {
        Err(IpcModelError::InvalidId)
    }
}

/// The members of a response on the wire, in their order.
pub open spec fn response_members(response: ResponseContent) -> Seq<(Seq<char>, Json)> {
    seq![("id"@, Json::Str(response.id))] + outcome_members(response.outcome)
}

/// The response that a value describes.
pub open spec fn response_of(value: Json) -> Result<ResponseContent, IpcModelError> {
    match value {
        Json::Object(members) => if !only(members, seq!["id"@, "success"@, "data"@, "error"@]) {
            Err(IpcModelError::UnknownField)
        } else if !members.dom().contains("id"@) {
            Err(IpcModelError::MissingId)
        } else {
            match members["id"@] {
                Json::Str(id) => match outcome_in(members.remove("id"@)) {
                    Ok(outcome) => response_from(id, outcome),
                    Err(failure) => Err(failure),
                },
                _ => Err(IpcModelError::InvalidId),
            }
        },
        _ => Err(IpcModelError::ExpectedObject),
    }
}

fn validate_response(id: &str, outcome: &IpcOutcome) -> (r: Result<(), IpcModelError>)
    ensures
        r == (if valid_response((ResponseContent { id: id@, outcome: outcome@ })) {
            Ok(())
        } else {
            Err(IpcModelError::InvalidId)
        }),
{
    if text::chars_of(id).len() == 0 {
        return match outcome {
            IpcOutcome::Failure(_) => Ok(()),
            IpcOutcome::Success(_) => Err(IpcModelError::InvalidId),
        };
    }
    validate_request_id(id)
}

impl IpcResponse {
    pub fn new(id: &str, outcome: IpcOutcome) -> (r: Result<Self, IpcModelError>)
        ensures
            models(r, response_from(id@, outcome@)),
    {
        if let Err(failure) = validate_response(id, &outcome) {
            return Err(failure);
        }
        Ok(IpcResponse { id: id.to_owned(), outcome })
    }

    pub fn success(id: &str, data: JsonValue) -> (r: Result<Self, IpcModelError>)
        ensures
            models(r, response_from(id@, OutcomeContent::Success(data@))),
    {
        IpcResponse::new(id, IpcOutcome::Success(data))
    }

    pub fn failure(id: &str, code: IpcErrorCode) -> (r: Result<Self, IpcModelError>)
        ensures
            models(r, response_from(id@, OutcomeContent::Failure(code))),
    {
        IpcResponse::new(id, IpcOutcome::Failure(IpcErrorBody::new(code)))
    }

    pub fn id(&self) -> (r: &str)
        ensures
            r@ == self@.id,
    {
        self.id.as_str()
    }

    pub fn outcome(&self) -> (r: &IpcOutcome)
        ensures
            r@ == self@.outcome,
    {
        &self.outcome
    }

    pub fn into_parts(self) -> (r: (String, IpcOutcome))
        ensures
            r.0@ == self@.id,
            r.1@ == self@.outcome,
    {
        (self.id, self.outcome)
    }
}

/// Reads a response.
pub fn parse_response(value: JsonValue) -> (r: Result<IpcResponse, IpcModelError>)
    ensures
        models(r, response_of(value@)),
{
    let mut object = match into_object(value) {
        Ok(object) => object,
        Err(failure) => return Err(failure),
    };
    let allowed: [&str; 4] = ["id", "success", "data", "error"];
    proof {
        assert(text::slices(allowed@) =~= seq!["id"@, "success"@, "data"@, "error"@]);
    }
    if !object.has_only(&allowed) {
        return Err(IpcModelError::UnknownField);
    }
    let id = match take_required_string(
        &mut object,
        "id",
        IpcModelError::MissingId,
        IpcModelError::InvalidId,
    ) {
        Ok(id) => id,
        Err(failure) => return Err(failure),
    };
    match parse_outcome_in(object) {
        Ok(outcome) => IpcResponse::new(id.as_str(), outcome),
        Err(failure) => Err(failure),
    }
}


/// A message that has a JSON form on the wire.
pub trait WireMessage: View + Sized {
    /// The text of a message, or why it has none.
    spec fn wire_text(content: Self::V) -> Result<Seq<u8>, IpcModelError>;

    /// The message that a value describes, or why it describes none.
    spec fn wire_read(value: Json) -> Result<Self::V, IpcModelError>;

    /// Reading the text of the message gives the message back.
    spec fn restorable(content: Self::V) -> bool;

    fn to_wire(&self) -> (r: Result<Vec<u8>, IpcModelError>)
        ensures
            match Self::wire_text(self@) {
                Ok(payload) => r matches Ok(bytes) && {
                    &&& bytes@ == payload
                    &&& json::printable(payload)
                    &&& vstd::utf8::valid_utf8(payload)
                    &&& Self::restorable(self@) ==> {
                        &&& json::json_document(payload) matches Some(value)
                        &&& json::json_prefix(payload) == Some(value)
                        &&& Self::wire_read(value) matches Ok(content)
                        &&& content == self@
                    }
                },
                Err(failure) => r matches Err(failed) && failed == failure,
            },
    ;

    fn from_wire(value: JsonValue) -> (r: Result<Self, IpcModelError>)
        ensures
            models(r, Self::wire_read(value@)),
    ;
}

impl WireMessage for JsonValue {
    open spec fn wire_text(content: Json) -> Result<Seq<u8>, IpcModelError> {
        Ok(json::json_text(content))
    }

    open spec fn wire_read(value: Json) -> Result<Json, IpcModelError> {
        Ok(value)
    }

    open spec fn restorable(content: Json) -> bool {
        json::reads_back(content, json::MAX_DEPTH as nat)
    }

    fn to_wire(&self) -> (r: Result<Vec<u8>, IpcModelError>) {
        Ok(self.to_text())
    }

    fn from_wire(value: JsonValue) -> (r: Result<Self, IpcModelError>) {
        Ok(value)
    }
}

/// One member with a string value.
fn push_text(members: &mut Vec<(String, JsonValue)>, name: &str, value: &str)
    ensures
        json::members_of(final(members)@) == json::members_of(old(members)@).push(
            (name@, Json::Str(value@)),
        ),
{
    push_member(members, name, JsonValue::String(value.to_owned()));
    proof {
        let last = members@.last();
        json::lemma_json_of(last.1);
    }
}

fn push_member(members: &mut Vec<(String, JsonValue)>, name: &str, value: JsonValue)
    ensures
        json::members_of(final(members)@) == json::members_of(old(members)@).push((name@, value@)),
        final(members)@.len() == old(members)@.len() + 1,
        final(members)@.last().1 == value,
{
    let ghost before = json::members_of(members@);
    let ghost added = value@;
    members.push((name.to_owned(), value));
    assert(json::members_of(members@) =~= before.push((name@, added)));
}

fn push_operation(members: &mut Vec<(String, JsonValue)>, operation: &IpcOperation)
    ensures
        json::members_of(final(members)@) == json::members_of(old(members)@) + operation_members(
            operation@,
        ),
{
    let ghost before = json::members_of(members@);
    match operation {
        IpcOperation::Ping => push_text(members, "type", "ping"),
        IpcOperation::ListTools => push_text(members, "type", "listTools"),
        IpcOperation::CallTool { tool_name, args } => {
            push_text(members, "type", "callTool");
            push_text(members, "toolName", tool_name.as_str());
            let value = JsonValue::Object(args.clone());
            proof {
                json::lemma_json_of(value);
            }
            push_member(members, "args", value);
        },
        IpcOperation::GetInstructions => push_text(members, "type", "getInstructions"),
        IpcOperation::Close => push_text(members, "type", "close"),
    }
    assert(json::members_of(members@) =~= before + operation_members(operation@));
}

/// The operation names differ from each other, and so do the member names.
proof fn lemma_wire_names()
    ensures
        "listTools"@ != "ping"@,
        "callTool"@ != "ping"@,
        "callTool"@ != "listTools"@,
        "getInstructions"@ != "ping"@,
        "getInstructions"@ != "listTools"@,
        "getInstructions"@ != "callTool"@,
        "close"@ != "ping"@,
        "close"@ != "listTools"@,
        "close"@ != "callTool"@,
        "close"@ != "getInstructions"@,
        "id"@ != "type"@,
        "id"@ != "toolName"@,
        "id"@ != "args"@,
        "type"@ != "toolName"@,
        "type"@ != "args"@,
        "toolName"@ != "args"@,
        "id"@ != "success"@,
        "id"@ != "data"@,
        "id"@ != "error"@,
        "success"@ != "data"@,
        "success"@ != "error"@,
        "data"@ != "error"@,
        "code"@ != "message"@,
{
    reveal_strlit("ping");
    reveal_strlit("listTools");
    reveal_strlit("callTool");
    reveal_strlit("getInstructions");
    reveal_strlit("close");
    reveal_strlit("id");
    reveal_strlit("type");
    reveal_strlit("toolName");
    reveal_strlit("args");
    reveal_strlit("success");
    reveal_strlit("data");
    reveal_strlit("error");
    reveal_strlit("code");
    reveal_strlit("message");
    assert("type"@[0] == 't' && "args"@[0] == 'a');
    assert("ping"@.len() == 4 && "listTools"@.len() == 9 && "callTool"@.len() == 8);
    assert("getInstructions"@.len() == 15 && "close"@.len() == 5);
    assert("id"@.len() == 2 && "type"@.len() == 4 && "toolName"@.len() == 8 && "args"@.len() == 4);
    assert("success"@.len() == 7 && "data"@.len() == 4 && "error"@.len() == 5);
    assert("code"@.len() == 4 && "message"@.len() == 7);
}

/// Reading the members of an operation gives the operation back, also where an
/// identifier was taken out first.
proof fn lemma_operation_round_trip(operation: OperationContent)
    requires
        valid_operation(operation),
    ensures
        json::distinct_members(operation_members(operation)),
        operation_in(json::member_map(operation_members(operation))) == Ok::<
            OperationContent,
            IpcModelError,
        >(operation),
{
    lemma_wire_names();
    let listed = operation_members(operation);
    json::lemma_member_map(listed);
    let members = json::member_map(listed);
    assert(listed[0].0 == "type"@);
    let rest = members.remove("type"@);
    if let OperationContent::CallTool { tool_name, args } = operation {
        assert(listed[1].0 == "toolName"@ && listed[2].0 == "args"@);
        let allowed = seq!["toolName"@, "args"@];
        assert(allowed[0] == "toolName"@ && allowed[1] == "args"@);
        assert forall|name: Seq<char>| #[trigger] rest.dom().contains(name) implies allowed.contains(
            name,
        ) by {
            assert(members.dom().contains(name));
            let i = choose|i: int| 0 <= i < listed.len() && (#[trigger] listed[i]).0 == name;
            assert(i == 1 || i == 2);
        }
        assert(rest["toolName"@] == Json::Str(tool_name));
        assert(rest["args"@] == Json::Object(args));
    } else {
        assert forall|name: Seq<char>| #[trigger] rest.dom().contains(name) implies Seq::<
            Seq<char>,
        >::empty().contains(name) by {
            assert(members.dom().contains(name));
            let i = choose|i: int| 0 <= i < listed.len() && (#[trigger] listed[i]).0 == name;
            assert(i == 0);
        }
    }
}

/// A list of members without its first one.
proof fn lemma_members_after_id(id: Seq<char>, rest: Seq<(Seq<char>, Json)>)
    requires
        json::distinct_members(rest),
        forall|i: int| 0 <= i < rest.len() ==> (#[trigger] rest[i]).0 != "id"@,
    ensures
        ({
            let all = seq![("id"@, Json::Str(id))] + rest;
            &&& json::distinct_members(all)
            &&& json::member_map(all).dom().contains("id"@)
            &&& json::member_map(all)["id"@] == Json::Str(id)
            &&& json::member_map(all).remove("id"@) == json::member_map(rest)
        }),
{
    let all = seq![("id"@, Json::Str(id))] + rest;
    assert forall|i: int, j: int| 0 <= i < j < all.len() implies (#[trigger] all[i]).0 != (
    #[trigger] all[j]).0 by {
        assert(all[j] == rest[j - 1]);
        if i > 0 {
            assert(all[i] == rest[i - 1]);
        }
    }
    json::lemma_member_map(all);
    json::lemma_member_map(rest);
    assert(all[0].0 == "id"@);
    let left = json::member_map(all).remove("id"@);
    let right = json::member_map(rest);
    assert forall|name: Seq<char>| #[trigger] left.dom().contains(name) implies right.dom().contains(
        name,
    ) && left[name] == right[name] by {
        assert(json::member_map(all).dom().contains(name));
        let i = choose|i: int| 0 <= i < all.len() && (#[trigger] all[i]).0 == name;
        assert(all[i] == rest[i - 1]);
    }
    assert forall|name: Seq<char>| #[trigger] right.dom().contains(name) implies left.dom().contains(
        name,
    ) by {
        let i = choose|i: int| 0 <= i < rest.len() && (#[trigger] rest[i]).0 == name;
        assert(all[i + 1] == rest[i]);
        assert(json::member_map(all).dom().contains(all[i + 1].0));
    }
    assert(left =~= right);
}

/// A request that is written down is read back as the same request.
pub proof fn requests_survive_the_wire(request: RequestContent)
    requires
        valid_request(request),
    ensures
        json::distinct_members(request_members(request)),
        request_of(Json::Object(json::member_map(request_members(request)))) == Ok::<
            RequestContent,
            IpcModelError,
        >(request),
{
    lemma_wire_names();
    let rest = operation_members(request.operation);
    lemma_operation_round_trip(request.operation);
    assert forall|i: int| 0 <= i < rest.len() implies (#[trigger] rest[i]).0 != "id"@ by {}
    lemma_members_after_id(request.id, rest);
}

impl WireMessage for IpcOperation {
    open spec fn wire_text(content: OperationContent) -> Result<Seq<u8>, IpcModelError> {
        if valid_operation(content) {
            Ok(json::json_object_text(operation_members(content)))
        } else {
            Err(IpcModelError::InvalidArguments)
        }
    }

    open spec fn wire_read(value: Json) -> Result<OperationContent, IpcModelError> {
        operation_of(value)
    }

    open spec fn restorable(content: OperationContent) -> bool {
        json::reads_back(
            Json::Object(json::member_map(operation_members(content))),
            json::MAX_DEPTH as nat,
        )
    }

    fn to_wire(&self) -> (r: Result<Vec<u8>, IpcModelError>) {
        if let Err(failure) = self.validate() {
            return Err(failure);
        }
        let mut members: Vec<(String, JsonValue)> = Vec::new();
        push_operation(&mut members, self);
        proof {
            lemma_operation_round_trip(self@);
            assert(json::members_of(members@) =~= operation_members(self@));
        }
        Ok(object_text(&members))
    }

    fn from_wire(value: JsonValue) -> (r: Result<Self, IpcModelError>) {
        parse_operation(value)
    }
}

impl WireMessage for IpcRequest {
    open spec fn wire_text(content: RequestContent) -> Result<Seq<u8>, IpcModelError> {
        if !valid_request_id(content.id) {
            Err(IpcModelError::InvalidId)
        } else if !valid_operation(content.operation) {
            Err(IpcModelError::InvalidArguments)
        } else {
            Ok(json::json_object_text(request_members(content)))
        }
    }

    open spec fn wire_read(value: Json) -> Result<RequestContent, IpcModelError> {
        request_of(value)
    }

    open spec fn restorable(content: RequestContent) -> bool {
        json::reads_back(
            Json::Object(json::member_map(request_members(content))),
            json::MAX_DEPTH as nat,
        )
    }

    fn to_wire(&self) -> (r: Result<Vec<u8>, IpcModelError>) {
        if let Err(failure) = validate_request_id(self.id.as_str()) {
            return Err(failure);
        }
        if let Err(failure) = self.operation.validate() {
            return Err(failure);
        }
        let mut members: Vec<(String, JsonValue)> = Vec::new();
        push_text(&mut members, "id", self.id.as_str());
        push_operation(&mut members, &self.operation);
        proof {
            requests_survive_the_wire(self@);
            assert(json::members_of(members@) =~= request_members(self@));
        }
        Ok(object_text(&members))
    }

    fn from_wire(value: JsonValue) -> (r: Result<Self, IpcModelError>) {
        parse_request(value)
    }
}

/// Reading the members of an error body gives its code back.
proof fn lemma_error_round_trip(code: IpcErrorCode)
    ensures
        json::distinct_members(error_members(code)),
        error_body_of(Json::Object(json::member_map(error_members(code)))) == Ok::<
            IpcErrorCode,
            IpcModelError,
        >(code),
{
    lemma_wire_names();
    codes_are_named_by_their_spellings(code);
    let listed = error_members(code);
    json::lemma_member_map(listed);
    let members = json::member_map(listed);
    assert(listed[0].0 == "code"@ && listed[1].0 == "message"@);
    let allowed = seq!["code"@, "message"@];
    assert(allowed[0] == "code"@ && allowed[1] == "message"@);
    assert forall|name: Seq<char>| #[trigger] members.dom().contains(name) implies allowed.contains(
        name,
    ) by {
        let i = choose|i: int| 0 <= i < listed.len() && (#[trigger] listed[i]).0 == name;
        assert(i == 0 || i == 1);
    }
}

fn error_object(body: &IpcErrorBody) -> (r: JsonValue)
    ensures
        r@ == Json::Object(json::member_map(error_members(body@))),
{
    let mut object = JsonObject::new();
    let code = JsonValue::String(body.code.as_str().to_owned());
    let message = JsonValue::String(body.message().to_owned());
    proof {
        json::lemma_json_of(code);
        json::lemma_json_of(message);
        let listed = error_members(body@);
        reveal_with_fuel(json::member_map, 3);
        assert(listed.drop_last().drop_last() =~= Seq::<(Seq<char>, Json)>::empty());
        assert(listed.drop_last().last() == listed[0]);
    }
    object.insert("code", code);
    object.insert("message", message);
    let r = JsonValue::Object(object);
    proof {
        json::lemma_json_of(r);
    }
    r
}

impl WireMessage for IpcErrorBody {
    open spec fn wire_text(content: IpcErrorCode) -> Result<Seq<u8>, IpcModelError> {
        Ok(json::json_object_text(error_members(content)))
    }

    open spec fn wire_read(value: Json) -> Result<IpcErrorCode, IpcModelError> {
        error_body_of(value)
    }

    open spec fn restorable(content: IpcErrorCode) -> bool {
        true
    }

    fn to_wire(&self) -> (r: Result<Vec<u8>, IpcModelError>) {
        let mut members: Vec<(String, JsonValue)> = Vec::new();
        push_text(&mut members, "code", self.code.as_str());
        push_text(&mut members, "message", self.message());
        proof {
            lemma_error_round_trip(self@);
            assert(json::members_of(members@) =~= error_members(self@));
            json::lemma_member_map(error_members(self@));
            reveal_with_fuel(json::reads_back, 2);
        }
        Ok(object_text(&members))
    }

    fn from_wire(value: JsonValue) -> (r: Result<Self, IpcModelError>) {
        parse_error_body(value)
    }
}

/// Reading the members of an outcome gives the outcome back.
proof fn lemma_outcome_round_trip(outcome: OutcomeContent)
    ensures
        json::distinct_members(outcome_members(outcome)),
        outcome_in(json::member_map(outcome_members(outcome))) == Ok::<
            OutcomeContent,
            IpcModelError,
        >(outcome),
{
    lemma_wire_names();
    let listed = outcome_members(outcome);
    json::lemma_member_map(listed);
    let members = json::member_map(listed);
    assert(listed[0].0 == "success"@);
    let rest = members.remove("success"@);
    let second = listed[1].0;
    assert(members.dom().contains(listed[1].0));
    assert forall|name: Seq<char>| #[trigger] rest.dom().contains(name) implies name == second by {
        assert(members.dom().contains(name));
        let i = choose|i: int| 0 <= i < listed.len() && (#[trigger] listed[i]).0 == name;
        assert(i == 1);
    }
    assert(seq!["data"@][0] == "data"@);
    assert(seq!["error"@][0] == "error"@);
    if let OutcomeContent::Failure(code) = outcome {
        lemma_error_round_trip(code);
    }
}

fn push_outcome(members: &mut Vec<(String, JsonValue)>, outcome: &IpcOutcome)
    ensures
        json::members_of(final(members)@) == json::members_of(old(members)@) + outcome_members(
            outcome@,
        ),
{
    let ghost before = json::members_of(members@);
    match outcome {
        IpcOutcome::Success(data) => {
            let success = JsonValue::Bool(true);
            proof {
                json::lemma_json_of(success);
            }
            push_member(members, "success", success);
            push_member(members, "data", data.clone());
        },
        IpcOutcome::Failure(body) => {
            let success = JsonValue::Bool(false);
            proof {
                json::lemma_json_of(success);
            }
            push_member(members, "success", success);
            push_member(members, "error", error_object(body));
        },
    }
    assert(json::members_of(members@) =~= before + outcome_members(outcome@));
}

impl WireMessage for IpcOutcome {
    open spec fn wire_text(content: OutcomeContent) -> Result<Seq<u8>, IpcModelError> {
        Ok(json::json_object_text(outcome_members(content)))
    }

    open spec fn wire_read(value: Json) -> Result<OutcomeContent, IpcModelError> {
        outcome_of(value)
    }

    open spec fn restorable(content: OutcomeContent) -> bool {
        json::reads_back(
            Json::Object(json::member_map(outcome_members(content))),
            json::MAX_DEPTH as nat,
        )
    }

    fn to_wire(&self) -> (r: Result<Vec<u8>, IpcModelError>) {
        let mut members: Vec<(String, JsonValue)> = Vec::new();
        push_outcome(&mut members, self);
        proof {
            lemma_outcome_round_trip(self@);
            assert(json::members_of(members@) =~= outcome_members(self@));
        }
        Ok(object_text(&members))
    }

    fn from_wire(value: JsonValue) -> (r: Result<Self, IpcModelError>) {
        parse_outcome(value)
    }
}

/// A response that is written down is read back as the same response.
pub proof fn responses_survive_the_wire(response: ResponseContent)
    requires
        valid_response(response),
    ensures
        json::distinct_members(response_members(response)),
        response_of(Json::Object(json::member_map(response_members(response)))) == Ok::<
            ResponseContent,
            IpcModelError,
        >(response),
{
    lemma_wire_names();
    let rest = outcome_members(response.outcome);
    lemma_outcome_round_trip(response.outcome);
    assert forall|i: int| 0 <= i < rest.len() implies (#[trigger] rest[i]).0 != "id"@ by {}
    lemma_members_after_id(response.id, rest);
    let all = response_members(response);
    json::lemma_member_map(all);
    let allowed = seq!["id"@, "success"@, "data"@, "error"@];
    assert(allowed[0] == "id"@ && allowed[1] == "success"@);
    assert(allowed[2] == "data"@ && allowed[3] == "error"@);
    assert forall|name: Seq<char>| #[trigger] json::member_map(all).dom().contains(
        name,
    ) implies allowed.contains(name) by {
        let i = choose|i: int| 0 <= i < all.len() && (#[trigger] all[i]).0 == name;
        if i > 0 {
            assert(all[i] == rest[i - 1]);
        }
    }
}

impl WireMessage for IpcResponse {
    open spec fn wire_text(content: ResponseContent) -> Result<Seq<u8>, IpcModelError> {
        if valid_response(content) {
            Ok(json::json_object_text(response_members(content)))
        } else {
            Err(IpcModelError::InvalidId)
        }
    }

    open spec fn wire_read(value: Json) -> Result<ResponseContent, IpcModelError> {
        response_of(value)
    }

    open spec fn restorable(content: ResponseContent) -> bool {
        json::reads_back(
            Json::Object(json::member_map(response_members(content))),
            json::MAX_DEPTH as nat,
        )
    }

    fn to_wire(&self) -> (r: Result<Vec<u8>, IpcModelError>) {
        if let Err(failure) = validate_response(self.id.as_str(), &self.outcome) {
            return Err(failure);
        }
        let mut members: Vec<(String, JsonValue)> = Vec::new();
        push_text(&mut members, "id", self.id.as_str());
        push_outcome(&mut members, &self.outcome);
        proof {
            responses_survive_the_wire(self@);
            assert(json::members_of(members@) =~= response_members(self@));
        }
        Ok(object_text(&members))
    }

    fn from_wire(value: JsonValue) -> (r: Result<Self, IpcModelError>) {
        parse_response(value)
    }
}

/// What is said where the platform has no daemon support.
pub fn unsupported_error() -> (r: &'static str)
    ensures
        r@ == "Unix daemon paths and PID metadata are unsupported on this platform"@,
{
    "Unix daemon paths and PID metadata are unsupported on this platform"
}

/// Identifiers and tool names are checked alike: they are not empty, hold no
/// control code, and fit into their limits, and everything that does is
/// accepted.
pub proof fn labels_are_checked_character_by_character(
    id: &str,
    checked: Result<(), IpcModelError>,
    operation: IpcOperation,
    request: Result<IpcRequest, IpcModelError>,
)
    requires
        call_ensures(validate_request_id, (id,), checked),
        call_ensures(IpcRequest::new, (id, operation), request),
    ensures
        checked is Ok <==> {
            &&& 0 < id@.len()
            &&& vstd::utf8::encode_utf8(id@).len() <= 128
            &&& forall|i: int| 0 <= i < id@.len() ==> !text::is_control(#[trigger] id@[i])
        },
        checked matches Err(failure) ==> failure == IpcModelError::InvalidId,
        checked is Err ==> request == Err::<IpcRequest, IpcModelError>(IpcModelError::InvalidId),
        checked is Ok && !(operation is CallTool) ==> request is Ok,
        checked is Ok ==> (operation@ matches OperationContent::CallTool { tool_name, args } ==> (
        request is Ok <==> {
            &&& 0 < tool_name.len()
            &&& vstd::utf8::encode_utf8(tool_name).len() <= 1024
            &&& forall|i: int| 0 <= i < tool_name.len() ==> !text::is_control(#[trigger] tool_name[i])
        })),
        request matches Ok(made) ==> made@.id == id@ && made@.operation == operation@,
{
}

/// The wire names of a request are fixed: it is an object with its identifier,
/// its type, and for a call the name of the tool and its arguments.
pub proof fn requests_have_their_members(request: RequestContent)
    ensures
        ({
            let members = json::member_map(request_members(request));
            let kind = match request.operation {
                OperationContent::Ping => "ping"@,
                OperationContent::ListTools => "listTools"@,
                OperationContent::CallTool { .. } => "callTool"@,
                OperationContent::GetInstructions => "getInstructions"@,
                OperationContent::Close => "close"@,
            };
            let plain = Map::<Seq<char>, Json>::empty().insert(
                "id"@,
                Json::Str(request.id),
            ).insert("type"@, Json::Str(kind));
            members == (match request.operation {
                OperationContent::CallTool { tool_name, args } => plain.insert(
                    "toolName"@,
                    Json::Str(tool_name),
                ).insert("args"@, Json::Object(args)),
                _ => plain,
            })
        }),
{
    let listed = request_members(request);
    reveal_with_fuel(json::member_map, 5);
    assert(listed.drop_last().drop_last() =~= listed.take(listed.len() - 2));
    match request.operation {
        OperationContent::CallTool { tool_name, args } => {
            assert(listed.drop_last().drop_last().drop_last().drop_last() =~= Seq::<
                (Seq<char>, Json),
            >::empty());
        },
        _ => {
            assert(listed.drop_last().drop_last() =~= Seq::<(Seq<char>, Json)>::empty());
        },
    }
}

/// Nothing is accepted as a request but requests: a value that is read as a
/// request is the object that the request is written as, member for member, and
/// the request is a valid one.
pub proof fn only_requests_are_read_as_requests(
    value: JsonValue,
    read: Result<IpcRequest, IpcModelError>,
)
    requires
        call_ensures(parse_request, (value,), read),
    ensures
        read matches Ok(request) ==> valid_request(request@) && value@ == Json::Object(
            json::member_map(request_members(request@)),
        ),
        !(value@ is Object) ==> read == Err::<IpcRequest, IpcModelError>(
            IpcModelError::ExpectedObject,
        ),
        value@ matches Json::Object(members) ==> {
            &&& !members.dom().contains("id"@) ==> read == Err::<IpcRequest, IpcModelError>(
                IpcModelError::MissingId,
            )
            &&& members.dom().contains("id"@) && !(members["id"@] matches Json::Str(id)
                && valid_request_id(id)) ==> read == Err::<IpcRequest, IpcModelError>(
                IpcModelError::InvalidId,
            )
            &&& members.dom().contains("id"@) && (members["id"@] matches Json::Str(id)
                && valid_request_id(id)) && !members.dom().contains("type"@) ==> read == Err::<
                IpcRequest,
                IpcModelError,
            >(IpcModelError::MissingType)
        },
{
    lemma_wire_names();
    if let Ok(request) = read {
        let members = value@->Object_0;
        let content = request@;
        let rest = members.remove("id"@).remove("type"@);
        requests_have_their_members(content);
        let written = json::member_map(request_members(content));
        if let OperationContent::CallTool { tool_name, args } = content.operation {
            let allowed = seq!["toolName"@, "args"@];
            assert forall|name: Seq<char>| #[trigger] members.dom().contains(name)
                <==> written.dom().contains(name) by {
                if members.dom().contains(name) && name != "id"@ && name != "type"@ {
                    assert(rest.dom().contains(name));
                    assert(allowed.contains(name));
                    assert(name == allowed[0] || name == allowed[1]);
                }
            }
            assert(members =~= written);
        } else {
            assert forall|name: Seq<char>| #[trigger] members.dom().contains(name)
                <==> written.dom().contains(name) by {
                if members.dom().contains(name) && name != "id"@ && name != "type"@ {
                    assert(rest.dom().contains(name));
                    assert(Seq::<Seq<char>>::empty().contains(name));
                }
            }
            assert(members =~= written);
        }
    }
}

/// A response says with its identifier whether it succeeded, and carries the data
/// or the error, never both; a success needs the identifier of its request.
pub proof fn responses_have_their_members(
    id: &str,
    data: JsonValue,
    code: IpcErrorCode,
    success: Result<IpcResponse, IpcModelError>,
    failure: Result<IpcResponse, IpcModelError>,
)
    requires
        call_ensures(IpcResponse::success, (id, data), success),
        call_ensures(IpcResponse::failure, (id, code), failure),
    ensures
        success is Ok <==> valid_request_id(id@),
        failure is Ok <==> valid_request_id(id@) || id@.len() == 0,
        success matches Ok(response) ==> json::member_map(response_members(response@)) == Map::<
            Seq<char>,
            Json,
        >::empty().insert("id"@, Json::Str(id@)).insert("success"@, Json::Bool(true)).insert(
            "data"@,
            data@,
        ),
        failure matches Ok(response) ==> json::member_map(response_members(response@)) == Map::<
            Seq<char>,
            Json,
        >::empty().insert("id"@, Json::Str(id@)).insert("success"@, Json::Bool(false)).insert(
            "error"@,
            Json::Object(
                Map::<Seq<char>, Json>::empty().insert("code"@, Json::Str(code_text(code))).insert(
                    "message"@,
                    Json::Str(code_message(code)),
                ),
            ),
        ),
        success matches Err(failed) ==> failed == IpcModelError::InvalidId,
        failure matches Err(failed) ==> failed == IpcModelError::InvalidId,
{
    reveal_with_fuel(json::member_map, 4);
    let named = error_members(code);
    assert(named.drop_last().drop_last() =~= Seq::<(Seq<char>, Json)>::empty());
    assert(json::member_map(named) =~= Map::<Seq<char>, Json>::empty().insert(
        "code"@,
        Json::Str(code_text(code)),
    ).insert("message"@, Json::Str(code_message(code))));
    if let Ok(response) = success {
        let listed = response_members(response@);
        assert(listed.drop_last().drop_last().drop_last() =~= Seq::<(Seq<char>, Json)>::empty());
    }
    if let Ok(response) = failure {
        let listed = response_members(response@);
        assert(listed.drop_last().drop_last().drop_last() =~= Seq::<(Seq<char>, Json)>::empty());
    }
}

/// What is read as a response states its own success: it has exactly the
/// members of its kind, its identifier and its data are those of the value, and
/// an error is known by its code and its own message.
pub proof fn only_responses_are_read_as_responses(
    value: JsonValue,
    read: Result<IpcResponse, IpcModelError>,
)
    requires
        call_ensures(parse_response, (value,), read),
    ensures
        !(value@ is Object) ==> read == Err::<IpcResponse, IpcModelError>(
            IpcModelError::ExpectedObject,
        ),
        read matches Ok(response) ==> valid_response(response@) && (value@ matches Json::Object(
            members,
        ) && {
            &&& members.dom().contains("id"@) && members["id"@] == Json::Str(response@.id)
            &&& members.dom().contains("success"@) && members["success"@] == Json::Bool(
                response@.outcome is Success,
            )
            &&& response@.outcome matches OutcomeContent::Success(data) ==> {
                &&& members.dom() == set!["id"@, "success"@, "data"@]
                &&& members["data"@] == data
            }
            &&& response@.outcome matches OutcomeContent::Failure(code) ==> {
                &&& members.dom() == set!["id"@, "success"@, "error"@]
                &&& error_body_of(members["error"@]) == Ok::<IpcErrorCode, IpcModelError>(code)
            }
        }),
{
    lemma_wire_names();
    if let Ok(response) = read {
        let members = value@->Object_0;
        let rest = members.remove("id"@).remove("success"@);
        let allowed = if response@.outcome is Success {
            seq!["data"@]
        } else {
            seq!["error"@]
        };
        let expected = set!["id"@, "success"@, allowed[0]];
        assert forall|name: Seq<char>| #[trigger] members.dom().contains(name)
            <==> expected.contains(name) by {
            if members.dom().contains(name) && name != "id"@ && name != "success"@ {
                assert(rest.dom().contains(name));
                assert(allowed.contains(name));
                assert(name == allowed[0]);
            }
        }
        assert(members.dom() =~= expected);
    }
}

/// An error body is accepted exactly if it has a code and the message that goes
/// with that code, and nothing else.
pub proof fn error_bodies_carry_their_own_message(
    value: JsonValue,
    read: Result<IpcErrorBody, IpcModelError>,
    code: IpcErrorCode,
)
    requires
        call_ensures(parse_error_body, (value,), read),
    ensures
        read matches Ok(body) ==> (value@ matches Json::Object(members) && members.dom() == set![
            "code"@,
            "message"@,
        ] && members["message"@] == Json::Str(code_message(body@)) && error_code_of(
            members["code"@],
        ) == Some(body@)),
        read matches Err(failure) ==> failure == IpcModelError::InvalidError,
        value@ == Json::Object(
            Map::<Seq<char>, Json>::empty().insert("code"@, Json::Str(code_text(code))).insert(
                "message"@,
                Json::Str(code_message(code)),
            ),
        ) ==> (read matches Ok(body) && body@ == code),
        error_code_of(Json::Str(code_text(code))) == Some(code),
{
    lemma_wire_names();
    codes_are_named_by_their_spellings(code);
    let allowed = seq!["code"@, "message"@];
    assert(allowed[0] == "code"@ && allowed[1] == "message"@);
    assert(allowed.contains("code"@) && allowed.contains("message"@));
    if let Ok(body) = read {
        let members = value@->Object_0;
        assert forall|name: Seq<char>| #[trigger] members.dom().contains(name) <==> set![
            "code"@,
            "message"@,
        ].contains(name) by {
            if members.dom().contains(name) {
                assert(allowed.contains(name));
            }
        }
        assert(members.dom() =~= set!["code"@, "message"@]);
    }
}

/// The codes that peers rely on, and what is said with each.
pub proof fn codes_have_their_spellings(
    code: IpcErrorCode,
    name: &'static str,
    message: &'static str,
)
    requires
        call_ensures(IpcErrorCode::as_str, (code,), name),
        call_ensures(IpcErrorCode::message, (code,), message),
    ensures
        (name@, message@) == (match code {
            IpcErrorCode::InvalidJson => ("INVALID_JSON"@, "Invalid JSON request"@),
            IpcErrorCode::MissingId => ("MISSING_ID"@, "Request ID is required"@),
            IpcErrorCode::UnknownType => ("UNKNOWN_TYPE"@, "Unknown request type"@),
            IpcErrorCode::InvalidArguments => ("INVALID_ARGUMENTS"@, "Invalid request arguments"@),
            IpcErrorCode::NotConnected => ("NOT_CONNECTED"@, "Daemon backend is not connected"@),
            IpcErrorCode::ExecutionError => ("EXECUTION_ERROR"@, "Daemon operation failed"@),
            IpcErrorCode::FrameTooLarge => (
                "FRAME_TOO_LARGE"@,
                "IPC frame exceeds the maximum size"@,
            ),
            IpcErrorCode::InvalidUtf8 => ("INVALID_UTF8"@, "IPC frame is not valid UTF-8"@),
            IpcErrorCode::TruncatedFrame => ("TRUNCATED_FRAME"@, "IPC frame was truncated"@),
            IpcErrorCode::Internal => ("INTERNAL"@, "Internal daemon error"@),
        }),
{
}

} // verus!

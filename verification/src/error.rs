//! Stable application error model.

use vstd::prelude::*;

use crate::order;
use crate::policy::retry;
use crate::policy::retry::{classify_http_status, ClassifyError, ErrorClass};
use crate::text;
use crate::text::{control_character, decimal_text, join, str_equal};

verus! {

/// Stable machine-readable categories used at the application boundary.
///
/// Variant names are deliberately decoupled from their wire representation;
/// use [`ErrorKind::as_str`] when rendering or serializing machine output.
#[derive(Clone, Copy, Debug, PartialEq, Eq, Hash, Structural)]
pub enum ErrorKind {
    UnknownCommand,
    InvalidArguments,
    ConfigNotFound,
    ConfigReadError,
    InvalidConfig,
    MissingEnvVar,
    InvalidRuntimeConfig,
    InvalidServerConfig,
    ServerNotFound,
    ToolNotFound,
    ToolDisabled,
    InvalidJson,
    InputTooLarge,
    SecurityError,
    ToolExecutionFailed,
    NetworkError,
    Timeout,
    AuthError,
}

/// Public process exit categories.
#[derive(Clone, Copy, Debug, PartialEq, Eq, Hash, Structural)]
pub enum ExitCode {
    Success,
    Client,
    Tool,
    Network,
    Auth,
}

/// The machine string of an error kind.
pub open spec fn kind_text(kind: ErrorKind) -> Seq<char> {
    match kind {
        ErrorKind::UnknownCommand => "UNKNOWN_COMMAND"@,
        ErrorKind::InvalidArguments => "INVALID_ARGUMENTS"@,
        ErrorKind::ConfigNotFound => "CONFIG_NOT_FOUND"@,
        ErrorKind::ConfigReadError => "CONFIG_READ_ERROR"@,
        ErrorKind::InvalidConfig => "INVALID_CONFIG"@,
        ErrorKind::MissingEnvVar => "MISSING_ENV_VAR"@,
        ErrorKind::InvalidRuntimeConfig => "INVALID_RUNTIME_CONFIG"@,
        ErrorKind::InvalidServerConfig => "INVALID_SERVER_CONFIG"@,
        ErrorKind::ServerNotFound => "SERVER_NOT_FOUND"@,
        ErrorKind::ToolNotFound => "TOOL_NOT_FOUND"@,
        ErrorKind::ToolDisabled => "TOOL_DISABLED"@,
        ErrorKind::InvalidJson => "INVALID_JSON"@,
        ErrorKind::InputTooLarge => "INPUT_TOO_LARGE"@,
        ErrorKind::SecurityError => "SECURITY_ERROR"@,
        ErrorKind::ToolExecutionFailed => "TOOL_EXECUTION_FAILED"@,
        ErrorKind::NetworkError => "NETWORK_ERROR"@,
        ErrorKind::Timeout => "TIMEOUT"@,
        ErrorKind::AuthError => "AUTH_ERROR"@,
    }
}

/// The exit category of an error kind.
pub open spec fn kind_exit_code(kind: ErrorKind) -> ExitCode {
    match kind {
        ErrorKind::ToolExecutionFailed => ExitCode::Tool,
        ErrorKind::NetworkError | ErrorKind::Timeout => ExitCode::Network,
        ErrorKind::AuthError => ExitCode::Auth,
        _ => ExitCode::Client,
    }
}

/// The retry category of an error kind without more specific metadata.
pub open spec fn kind_class(kind: ErrorKind) -> ErrorClass {
    match kind {
        ErrorKind::ToolExecutionFailed => ErrorClass::Business,
        ErrorKind::NetworkError => ErrorClass::Transient,
        ErrorKind::AuthError => ErrorClass::Auth,
        _ => ErrorClass::NonTransient,
    }
}

/// Every public kind, in stable declaration order.
pub open spec fn all_kinds() -> Seq<ErrorKind> {
    seq![
        ErrorKind::UnknownCommand,
        ErrorKind::InvalidArguments,
        ErrorKind::ConfigNotFound,
        ErrorKind::ConfigReadError,
        ErrorKind::InvalidConfig,
        ErrorKind::MissingEnvVar,
        ErrorKind::InvalidRuntimeConfig,
        ErrorKind::InvalidServerConfig,
        ErrorKind::ServerNotFound,
        ErrorKind::ToolNotFound,
        ErrorKind::ToolDisabled,
        ErrorKind::InvalidJson,
        ErrorKind::InputTooLarge,
        ErrorKind::SecurityError,
        ErrorKind::ToolExecutionFailed,
        ErrorKind::NetworkError,
        ErrorKind::Timeout,
        ErrorKind::AuthError,
    ]
}

impl ErrorKind {
    /// Every public kind, in stable declaration order.
    pub fn all() -> (r: [ErrorKind; 18])
        ensures
            r@ == all_kinds(),
    {
        [
            ErrorKind::UnknownCommand,
            ErrorKind::InvalidArguments,
            ErrorKind::ConfigNotFound,
            ErrorKind::ConfigReadError,
            ErrorKind::InvalidConfig,
            ErrorKind::MissingEnvVar,
            ErrorKind::InvalidRuntimeConfig,
            ErrorKind::InvalidServerConfig,
            ErrorKind::ServerNotFound,
            ErrorKind::ToolNotFound,
            ErrorKind::ToolDisabled,
            ErrorKind::InvalidJson,
            ErrorKind::InputTooLarge,
            ErrorKind::SecurityError,
            ErrorKind::ToolExecutionFailed,
            ErrorKind::NetworkError,
            ErrorKind::Timeout,
            ErrorKind::AuthError,
        ]
    }

    /// Stable machine string used in structured errors and serialized values.
    pub fn as_str(self) -> (r: &'static str)
        ensures
            r@ == kind_text(self),
    {
        match self {
            ErrorKind::UnknownCommand => "UNKNOWN_COMMAND",
            ErrorKind::InvalidArguments => "INVALID_ARGUMENTS",
            ErrorKind::ConfigNotFound => "CONFIG_NOT_FOUND",
            ErrorKind::ConfigReadError => "CONFIG_READ_ERROR",
            ErrorKind::InvalidConfig => "INVALID_CONFIG",
            ErrorKind::MissingEnvVar => "MISSING_ENV_VAR",
            ErrorKind::InvalidRuntimeConfig => "INVALID_RUNTIME_CONFIG",
            ErrorKind::InvalidServerConfig => "INVALID_SERVER_CONFIG",
            ErrorKind::ServerNotFound => "SERVER_NOT_FOUND",
            ErrorKind::ToolNotFound => "TOOL_NOT_FOUND",
            ErrorKind::ToolDisabled => "TOOL_DISABLED",
            ErrorKind::InvalidJson => "INVALID_JSON",
            ErrorKind::InputTooLarge => "INPUT_TOO_LARGE",
            ErrorKind::SecurityError => "SECURITY_ERROR",
            ErrorKind::ToolExecutionFailed => "TOOL_EXECUTION_FAILED",
            ErrorKind::NetworkError => "NETWORK_ERROR",
            ErrorKind::Timeout => "TIMEOUT",
            ErrorKind::AuthError => "AUTH_ERROR",
        }
    }

    /// The kind with the given machine string.
    pub fn from_machine_string(name: &str) -> (r: Option<ErrorKind>)
        ensures
            forall|kind: ErrorKind| r == Some(kind) <==> #[trigger] kind_text(kind) == name@,
    {
        let kinds = ErrorKind::all();
        let mut index: usize = 0;
        while index < 18
            invariant
                index <= 18,
                kinds@ == all_kinds(),
                forall|i: int| 0 <= i < index ==> kind_text(#[trigger] all_kinds()[i]) != name@,
            decreases 18 - index,
        {
            if str_equal(kinds[index].as_str(), name) {
                proof {
                    assert forall|kind: ErrorKind| #[trigger] kind_text(kind) == name@ implies kind
                        == kinds@[index as int] by {
                        machine_strings_are_distinct(kind, kinds@[index as int]);
                    }
                }
                return Some(kinds[index]);
            }
            index += 1;
        }
        proof {
            assert forall|kind: ErrorKind| #[trigger] kind_text(kind) != name@ by {
                every_kind_is_listed(kind);
                let i = choose|i: int| 0 <= i < 18 && all_kinds()[i] == kind;
                assert(kind_text(all_kinds()[i]) != name@);
            }
        }
        None
    }

    /// Total mapping from every public error kind to its process exit category.
    pub fn exit_code(self) -> (r: ExitCode)
        ensures
            r == kind_exit_code(self),
    {
        match self {
            ErrorKind::ToolExecutionFailed => ExitCode::Tool,
            ErrorKind::NetworkError | ErrorKind::Timeout => ExitCode::Network,
            ErrorKind::AuthError => ExitCode::Auth,
            _ => ExitCode::Client,
        }
    }

    /// Default retry classification for errors without more specific adapter
    /// metadata. HTTP constructors override this using the structured status.
    pub fn error_class(self) -> (r: ErrorClass)
        ensures
            r == kind_class(self),
    {
        match self {
            ErrorKind::ToolExecutionFailed => ErrorClass::Business,
            ErrorKind::NetworkError => ErrorClass::Transient,
            ErrorKind::AuthError => ErrorClass::Auth,
            _ => ErrorClass::NonTransient,
        }
    }
}

/// No two kinds share a machine string.
pub proof fn machine_strings_are_distinct(left: ErrorKind, right: ErrorKind)
    ensures
        kind_text(left) == kind_text(right) ==> left == right,
{
    reveal_strlit("UNKNOWN_COMMAND");
    reveal_strlit("INVALID_ARGUMENTS");
    reveal_strlit("CONFIG_NOT_FOUND");
    reveal_strlit("CONFIG_READ_ERROR");
    reveal_strlit("INVALID_CONFIG");
    reveal_strlit("MISSING_ENV_VAR");
    reveal_strlit("INVALID_RUNTIME_CONFIG");
    reveal_strlit("INVALID_SERVER_CONFIG");
    reveal_strlit("SERVER_NOT_FOUND");
    reveal_strlit("TOOL_NOT_FOUND");
    reveal_strlit("TOOL_DISABLED");
    reveal_strlit("INVALID_JSON");
    reveal_strlit("INPUT_TOO_LARGE");
    reveal_strlit("SECURITY_ERROR");
    reveal_strlit("TOOL_EXECUTION_FAILED");
    reveal_strlit("NETWORK_ERROR");
    reveal_strlit("TIMEOUT");
    reveal_strlit("AUTH_ERROR");
    if kind_text(left) == kind_text(right) {
        // Length and first character tell every two machine strings apart.
        assert(kind_text(left).len() == kind_text(right).len());
        assert(kind_text(left)[0] == kind_text(right)[0]);
    }
}

proof fn every_kind_is_listed(kind: ErrorKind)
    ensures
        exists|i: int| 0 <= i < 18 && all_kinds()[i] == kind,
{
    let kinds = all_kinds();
    match kind {
        ErrorKind::UnknownCommand => assert(kinds[0] == kind),
        ErrorKind::InvalidArguments => assert(kinds[1] == kind),
        ErrorKind::ConfigNotFound => assert(kinds[2] == kind),
        ErrorKind::ConfigReadError => assert(kinds[3] == kind),
        ErrorKind::InvalidConfig => assert(kinds[4] == kind),
        ErrorKind::MissingEnvVar => assert(kinds[5] == kind),
        ErrorKind::InvalidRuntimeConfig => assert(kinds[6] == kind),
        ErrorKind::InvalidServerConfig => assert(kinds[7] == kind),
        ErrorKind::ServerNotFound => assert(kinds[8] == kind),
        ErrorKind::ToolNotFound => assert(kinds[9] == kind),
        ErrorKind::ToolDisabled => assert(kinds[10] == kind),
        ErrorKind::InvalidJson => assert(kinds[11] == kind),
        ErrorKind::InputTooLarge => assert(kinds[12] == kind),
        ErrorKind::SecurityError => assert(kinds[13] == kind),
        ErrorKind::ToolExecutionFailed => assert(kinds[14] == kind),
        ErrorKind::NetworkError => assert(kinds[15] == kind),
        ErrorKind::Timeout => assert(kinds[16] == kind),
        ErrorKind::AuthError => assert(kinds[17] == kind),
    }
}

/// The process status of an exit category.
pub open spec fn exit_status(code: ExitCode) -> u8 {
    match code {
        ExitCode::Success => 0,
        ExitCode::Client => 1,
        ExitCode::Tool => 2,
        ExitCode::Network => 3,
        ExitCode::Auth => 4,
    }
}

impl ExitCode {
    pub fn as_u8(self) -> (r: u8)
        ensures
            r == exit_status(self),
    {
        match self {
            ExitCode::Success => 0,
            ExitCode::Client => 1,
            ExitCode::Tool => 2,
            ExitCode::Network => 3,
            ExitCode::Auth => 4,
        }
    }
}


/// The content of an error value.
#[verifier::ext_equal]
pub struct ErrorContent {
    pub kind: ErrorKind,
    pub message: Seq<char>,
    pub details: Option<Seq<char>>,
    pub suggestion: Option<Seq<char>>,
    pub exit_code: ExitCode,
    pub class: ErrorClass,
    pub details_redacted: bool,
    pub has_source: bool,
}

/// An error of a kind with a message and nothing else.
pub open spec fn plain_error(kind: ErrorKind, message: Seq<char>) -> ErrorContent {
    ErrorContent {
        kind,
        message,
        details: None,
        suggestion: None,
        exit_code: kind_exit_code(kind),
        class: kind_class(kind),
        details_redacted: false,
        has_source: false,
    }
}

impl ErrorContent {
    pub open spec fn details(self, details: Seq<char>) -> ErrorContent {
        ErrorContent { details: Some(details), details_redacted: false, ..self }
    }

    pub open spec fn suggestion(self, suggestion: Seq<char>) -> ErrorContent {
        ErrorContent { suggestion: Some(suggestion), ..self }
    }

    pub open spec fn class(self, class: ErrorClass) -> ErrorContent {
        ErrorContent { class, ..self }
    }

    pub open spec fn source(self) -> ErrorContent {
        ErrorContent { has_source: true, ..self }
    }
}

/// A user-facing error value that may stand for a retained internal cause.
///
/// The cause itself stays with the adapter that met it. This value only records
/// that there is one, so neither its text fields nor its debug form can render
/// credentials or implementation details to users.
#[derive(Clone, Debug)]
pub struct CliError {
    pub kind: ErrorKind,
    pub message: String,
    pub details: Option<String>,
    pub suggestion: Option<String>,
    pub exit_code: ExitCode,
    class: ErrorClass,
    details_redacted: bool,
    has_source: bool,
}

impl View for CliError {
    type V = ErrorContent;

    closed spec fn view(&self) -> ErrorContent {
        ErrorContent {
            kind: self.kind,
            message: self.message@,
            details: text::optional(self.details),
            suggestion: text::optional(self.suggestion),
            exit_code: self.exit_code,
            class: self.class,
            details_redacted: self.details_redacted,
            has_source: self.has_source,
        }
    }
}

/// A label made safe for one line of output: control codes become spaces, and
/// what exceeds 160 characters is cut off and marked.
pub open spec fn safe_label_of(value: Seq<char>) -> Seq<char> {
    let neutral = value.map_values(
        |c: char|
            if text::is_control(c) {
                ' '
            } else {
                c
            },
    );
    if value.len() <= 160 {
        neutral
    } else {
        neutral.take(160) + "..."@
    }
}

/// The safe labels of the values, sorted and each listed once; empty labels are
/// left out.
pub open spec fn candidates_of(values: Seq<Seq<char>>) -> Seq<Seq<char>>
    decreases values.len(),
{
    if values.len() == 0 {
        Seq::empty()
    } else {
        let before = candidates_of(values.drop_last());
        let label = safe_label_of(values.last());
        if label.len() == 0 {
            before
        } else {
            order::insert_sorted(before, label)
        }
    }
}

/// A candidate list for display: the first five, and how many more there are.
pub open spec fn displayed_candidates(candidates: Seq<Seq<char>>) -> Seq<char> {
    if candidates.len() == 0 {
        "(none)"@
    } else if candidates.len() <= 5 {
        text::joined(candidates, ", "@)
    } else {
        text::joined(candidates.take(5), ", "@) + " (+"@ + text::decimal(
            (candidates.len() - 5) as nat,
        ) + " more)"@
    }
}

/// Candidates are listed in ascending order, each once, and they are exactly
/// the non-empty safe labels of the values.
pub proof fn candidates_are_sorted_and_complete(values: Seq<Seq<char>>)
    ensures
        order::ascending(candidates_of(values)),
        forall|label: Seq<char>| #[trigger]
            candidates_of(values).contains(label) <==> label.len() > 0 && exists|i: int|
                0 <= i < values.len() && safe_label_of(#[trigger] values[i]) == label,
    decreases values.len(),
{
    if values.len() > 0 {
        let head = values.drop_last();
        candidates_are_sorted_and_complete(head);
        let before = candidates_of(head);
        let newest = safe_label_of(values.last());
        if newest.len() > 0 {
            order::lemma_insert_sorted_ascending(before, newest);
        }
        assert forall|label: Seq<char>| #[trigger] candidates_of(values).contains(label) <==> label.len()
            > 0 && exists|i: int|
            0 <= i < values.len() && safe_label_of(#[trigger] values[i]) == label by {
            if before.contains(label) {
                let i = choose|i: int|
                    0 <= i < head.len() && safe_label_of(#[trigger] head[i]) == label;
                assert(safe_label_of(values[i]) == label);
            }
            if label == newest {
                assert(safe_label_of(values[values.len() - 1]) == label);
            }
            if label.len() > 0 && exists|i: int|
                0 <= i < values.len() && safe_label_of(#[trigger] values[i]) == label {
                let i = choose|i: int|
                    0 <= i < values.len() && safe_label_of(#[trigger] values[i]) == label;
                if i < head.len() {
                    assert(head[i] == values[i]);
                    assert(before.contains(label));
                }
            }
        }
    }
}

/// A safe label holds no control code and at most 163 characters.
pub proof fn safe_labels_are_safe(value: Seq<char>)
    ensures
        safe_label_of(value).len() <= 163,
        forall|i: int|
            0 <= i < safe_label_of(value).len() ==> !text::is_control(
                #[trigger] safe_label_of(value)[i],
            ),
{
    reveal_strlit("...");
}

fn safe_label(value: &str) -> (r: String)
    ensures
        r@ == safe_label_of(value@),
{
    let characters = text::chars_of(value);
    let mut result = String::new();
    let mut index: usize = 0;
    let ghost neutral = value@.map_values(
        |c: char|
            if text::is_control(c) {
                ' '
            } else {
                c
            },
    );
    while index < characters.len() && index < 160
        invariant
            characters@ == value@,
            index <= characters.len(),
            index <= 160,
            neutral == value@.map_values(
                |c: char|
                    if text::is_control(c) {
                        ' '
                    } else {
                        c
                    },
            ),
            result@ == neutral.take(index as int),
        decreases characters.len() - index,
    {
        if control_character(characters[index]) {
            result.push(' ');
        } else {
            result.push(characters[index]);
        }
        assert(neutral.take(index + 1) =~= neutral.take(index as int).push(neutral[index as int]));
        index += 1;
    }
    if index < characters.len() {
        result.append("...");
    } else {
        assert(neutral.take(index as int) =~= neutral);
    }
    result
}

fn safe_candidates(values: &[&str]) -> (r: Vec<String>)
    ensures
        text::texts(r@) == candidates_of(text::slices(values@)),
{
    let mut result: Vec<String> = Vec::new();
    let mut index: usize = 0;
    assert(text::texts(result@) =~= candidates_of(text::slices(values@).take(0)));
    while index < values.len()
        invariant
            index <= values.len(),
            text::texts(result@) == candidates_of(text::slices(values@).take(index as int)),
        decreases values.len() - index,
    {
        let label = safe_label(values[index]);
        let ghost seen = text::slices(values@).take(index + 1);
        assert(seen.drop_last() =~= text::slices(values@).take(index as int));
        assert(seen.last() == values@[index as int]@);
        let length: usize = text::chars_of(label.as_str()).len();
        if length > 0 {
            order::insert_ascending(&mut result, label);
        }
        index += 1;
    }
    assert(text::slices(values@).take(index as int) =~= text::slices(values@));
    result
}

fn display_candidates(candidates: &Vec<String>) -> (r: String)
    ensures
        r@ == displayed_candidates(text::texts(candidates@)),
{
    if candidates.len() == 0 {
        return "(none)".to_owned();
    }
    if candidates.len() <= 5 {
        return join(candidates.as_slice(), ", ");
    }
    let shown = vstd::slice::slice_subrange(candidates.as_slice(), 0, 5);
    let mut text = join(shown, ", ");
    assert(text::texts(shown@) =~= text::texts(candidates@).take(5));
    text.append(" (+");
    text.append(decimal_text((candidates.len() - 5) as u128).as_str());
    text.append(" more)");
    text
}


fn two(first: &str, second: &str) -> (r: String)
    ensures
        r@ == first@ + second@,
{
    let mut text = first.to_owned();
    text.append(second);
    text
}

fn three(first: &str, second: &str, third: &str) -> (r: String)
    ensures
        r@ == first@ + second@ + third@,
{
    let mut text = two(first, second);
    text.append(third);
    text
}

fn four(first: &str, second: &str, third: &str, fourth: &str) -> (r: String)
    ensures
        r@ == first@ + second@ + third@ + fourth@,
{
    let mut text = three(first, second, third);
    text.append(fourth);
    text
}

fn five(first: &str, second: &str, third: &str, fourth: &str, fifth: &str) -> (r: String)
    ensures
        r@ == first@ + second@ + third@ + fourth@ + fifth@,
{
    let mut text = four(first, second, third, fourth);
    text.append(fifth);
    text
}

impl CliError {
    /// Compatibility constructor. The supplied exit code is accepted so older
    /// call sites continue to compile, but the canonical kind mapping always
    /// wins and cannot be changed by an inconsistent caller argument.
    pub fn new(kind: ErrorKind, message: &str, _exit_code: ExitCode) -> (r: Self)
        ensures
            r@ == plain_error(kind, message@),
    {
        CliError::from_kind(kind, message)
    }

    pub fn from_kind(kind: ErrorKind, message: &str) -> (r: Self)
        ensures
            r@ == plain_error(kind, message@),
    {
        CliError {
            kind,
            message: message.to_owned(),
            details: None,
            suggestion: None,
            exit_code: kind.exit_code(),
            class: kind.error_class(),
            details_redacted: false,
            has_source: false,
        }
    }

    pub fn with_details(self, details: &str) -> (r: Self)
        ensures
            r@ == self@.details(details@),
    {
        let mut error = self;
        error.details = Some(details.to_owned());
        error.details_redacted = false;
        error
    }

    /// Marks details that were redacted before a lossy transformation. The
    /// process boundary must not redact this field again because replacement
    /// markers are not guaranteed to be stable under a second pass for every
    /// possible configured secret.
    pub fn mark_details_redacted(self) -> (r: Self)
        ensures
            r@ == (ErrorContent { details_redacted: true, ..self@ }),
    {
        let mut error = self;
        error.details_redacted = true;
        error
    }

    pub fn details_are_redacted(&self) -> (r: bool)
        ensures
            r == self@.details_redacted,
    {
        self.details_redacted
    }

    pub fn set_details_redacted(&mut self)
        ensures
            final(self)@ == (ErrorContent { details_redacted: true, ..old(self)@ }),
    {
        self.details_redacted = true;
    }

    pub fn with_suggestion(self, suggestion: &str) -> (r: Self)
        ensures
            r@ == self@.suggestion(suggestion@),
    {
        let mut error = self;
        error.suggestion = Some(suggestion.to_owned());
        error
    }

    /// Records an internal cause. Of the cause itself nothing is kept: it cannot
    /// reach message, details, suggestion or the debug form.
    pub fn with_source<E>(self, source: &E) -> (r: Self)
        ensures
            r@ == self@.source(),
    {
        let _ = source;
        let mut error = self;
        error.has_source = true;
        error
    }

    pub fn has_source(&self) -> (r: bool)
        ensures
            r == self@.has_source,
    {
        self.has_source
    }

    pub fn machine_kind(&self) -> (r: &'static str)
        ensures
            r@ == kind_text(self@.kind),
    {
        self.kind.as_str()
    }

    pub fn canonical_exit_code(&self) -> (r: ExitCode)
        ensures
            r == kind_exit_code(self@.kind),
    {
        self.kind.exit_code()
    }

    pub fn error_class(&self) -> (r: ErrorClass)
        ensures
            r == self@.class,
    {
        self.class
    }

    /// The text shown for the error as a whole: its message.
    pub fn display_text(&self) -> (r: &str)
        ensures
            r@ == self@.message,
    {
        self.message.as_str()
    }

    /// The details, where there are any.
    pub fn details_text(&self) -> (r: Option<&str>)
        ensures
            r is Some <==> self@.details is Some,
            r matches Some(details) ==> self@.details == Some(details@),
    {
        match &self.details {
            Some(details) => Some(details.as_str()),
            None => None,
        }
    }

    /// The suggestion, where there is one.
    pub fn suggestion_text(&self) -> (r: Option<&str>)
        ensures
            r is Some <==> self@.suggestion is Some,
            r matches Some(suggestion) ==> self@.suggestion == Some(suggestion@),
    {
        match &self.suggestion {
            Some(suggestion) => Some(suggestion.as_str()),
            None => None,
        }
    }

    /// Replaces the texts of the error and marks the details as redacted.
    pub fn with_redacted_texts(
        self,
        message: String,
        details: Option<String>,
        suggestion: Option<String>,
    ) -> (r: Self)
        ensures
            r@ == (ErrorContent {
                message: message@,
                details: text::optional(details),
                suggestion: text::optional(suggestion),
                details_redacted: true,
                ..self@
            }),
    {
        let mut error = self;
        error.message = message;
        error.details = details;
        error.suggestion = suggestion;
        error.details_redacted = true;
        error
    }

    pub fn unknown_command(command: &str) -> (r: Self)
        ensures
            r@ == plain_error(
                ErrorKind::UnknownCommand,
                "Unknown command: \""@ + safe_label_of(command@) + "\""@,
            ).details("Valid commands: info, grep, call"@).suggestion(
                "Run 'mcp-cli --help' to see valid commands and usage"@,
            ),
    {
        let command = safe_label(command);
        CliError::from_kind(
            ErrorKind::UnknownCommand,
            three("Unknown command: \"", command.as_str(), "\"").as_str(),
        ).with_details("Valid commands: info, grep, call").with_suggestion(
            "Run 'mcp-cli --help' to see valid commands and usage",
        )
    }

    pub fn invalid_arguments(message: &str, details: &str) -> (r: Self)
        ensures
            r@ == plain_error(ErrorKind::InvalidArguments, message@).details(details@),
    {
        CliError::from_kind(ErrorKind::InvalidArguments, message).with_details(details)
    }

    /// `path` is the path as displayed to the user.
    pub fn config_not_found(path: &str) -> (r: Self)
        ensures
            r@ == plain_error(
                ErrorKind::ConfigNotFound,
                "Config file not found: "@ + path@,
            ).suggestion(
                "Create mcp_servers.json or use -c/--config to specify the configuration file"@,
            ),
    {
        CliError::from_kind(
            ErrorKind::ConfigNotFound,
            two("Config file not found: ", path).as_str(),
        ).with_suggestion(
            "Create mcp_servers.json or use -c/--config to specify the configuration file",
        )
    }

    /// `paths` are the searched paths as displayed to the user.
    pub fn config_not_found_in(paths: &[String]) -> (r: Self)
        ensures
            r@ == plain_error(
                ErrorKind::ConfigNotFound,
                "No mcp_servers.json found in search paths"@,
            ).details("Searched: "@ + text::joined(text::texts(paths@), ", "@)).suggestion(
                "Create mcp_servers.json in a search path or use -c/--config to specify one"@,
            ),
    {
        CliError::from_kind(
            ErrorKind::ConfigNotFound,
            "No mcp_servers.json found in search paths",
        ).with_details(two("Searched: ", join(paths, ", ").as_str()).as_str()).with_suggestion(
            "Create mcp_servers.json in a search path or use -c/--config to specify one",
        )
    }

    /// Nothing of the cause of the failed read shows.
    pub fn config_read_error<E>(path: &str, source: &E) -> (r: Self)
        ensures
            r@ == plain_error(
                ErrorKind::ConfigReadError,
                "Could not read config file: "@ + path@,
            ).details("File: "@ + path@).suggestion(
                "Check that the configuration path exists and is readable"@,
            ).source(),
    {
        CliError::from_kind(
            ErrorKind::ConfigReadError,
            two("Could not read config file: ", path).as_str(),
        ).with_details(two("File: ", path).as_str()).with_suggestion(
            "Check that the configuration path exists and is readable",
        ).with_source(source)
    }

    pub fn invalid_config(path: &str, safe_details: &str) -> (r: Self)
        ensures
            r@ == plain_error(
                ErrorKind::InvalidConfig,
                "Invalid configuration: "@ + path@,
            ).details(safe_details@).suggestion(
                "Fix the JSON syntax or configuration structure and try again"@,
            ),
    {
        CliError::from_kind(
            ErrorKind::InvalidConfig,
            two("Invalid configuration: ", path).as_str(),
        ).with_details(safe_details).with_suggestion(
            "Fix the JSON syntax or configuration structure and try again",
        )
    }

    pub fn missing_env_vars(names: &[&str]) -> (r: Self)
        ensures
            r@ == plain_error(
                ErrorKind::MissingEnvVar,
                "Configuration references missing environment variables"@,
            ).details(
                "Missing variables: "@ + (if candidates_of(text::slices(names@)).len() == 0 {
                    "(none)"@
                } else {
                    text::joined(candidates_of(text::slices(names@)), ", "@)
                }),
            ).suggestion("Define the listed environment variables and retry"@),
    {
        let names = safe_candidates(names);
        let displayed = if names.len() == 0 {
            "(none)".to_owned()
        } else {
            join(names.as_slice(), ", ")
        };
        CliError::from_kind(
            ErrorKind::MissingEnvVar,
            "Configuration references missing environment variables",
        ).with_details(two("Missing variables: ", displayed.as_str()).as_str()).with_suggestion(
            "Define the listed environment variables and retry",
        )
    }

    pub fn invalid_runtime_config(name: &str, expected: &str) -> (r: Self)
        ensures
            r@ == plain_error(
                ErrorKind::InvalidRuntimeConfig,
                "Invalid runtime configuration"@,
            ).details(
                safe_label_of(name@) + " must be "@ + safe_label_of(expected@),
            ).suggestion("Set the environment variable to a supported value and retry"@),
    {
        CliError::from_kind(
            ErrorKind::InvalidRuntimeConfig,
            "Invalid runtime configuration",
        ).with_details(
            three(safe_label(name).as_str(), " must be ", safe_label(expected).as_str()).as_str(),
        ).with_suggestion("Set the environment variable to a supported value and retry")
    }

    pub fn invalid_server_config(server: &str, field: &str, reason: &str) -> (r: Self)
        ensures
            r@ == plain_error(
                ErrorKind::InvalidServerConfig,
                "Invalid configuration for server \""@ + safe_label_of(server@) + "\""@,
            ).details(
                "Field "@ + safe_label_of(field@) + ": "@ + safe_label_of(reason@),
            ).suggestion("Fix the named server field in mcp_servers.json"@),
    {
        CliError::from_kind(
            ErrorKind::InvalidServerConfig,
            three(
                "Invalid configuration for server \"",
                safe_label(server).as_str(),
                "\"",
            ).as_str(),
        ).with_details(
            four(
                "Field ",
                safe_label(field).as_str(),
                ": ",
                safe_label(reason).as_str(),
            ).as_str(),
        ).with_suggestion("Fix the named server field in mcp_servers.json")
    }

    pub fn server_not_found(server: &str, available: &[&str]) -> (r: Self)
        ensures
            r@ == ({
                let candidates = candidates_of(text::slices(available@));
                plain_error(
                    ErrorKind::ServerNotFound,
                    "Server \""@ + safe_label_of(server@) + "\" not found in config"@,
                ).details(
                    "Available servers: "@ + displayed_candidates(candidates),
                ).suggestion(
                    if candidates.len() == 0 {
                        "Add server \""@ + safe_label_of(server@) + "\" to mcp_servers.json"@
                    } else {
                        "Use 'mcp-cli info "@ + candidates[0] + "' or choose another listed server"@
                    },
                )
            }),
    {
        let server = safe_label(server);
        let candidates = safe_candidates(available);
        let suggestion = if candidates.len() == 0 {
            three("Add server \"", server.as_str(), "\" to mcp_servers.json")
        } else {
            assert(text::texts(candidates@)[0] == candidates@[0]@);
            three(
                "Use 'mcp-cli info ",
                candidates[0].as_str(),
                "' or choose another listed server",
            )
        };
        CliError::from_kind(
            ErrorKind::ServerNotFound,
            three("Server \"", server.as_str(), "\" not found in config").as_str(),
        ).with_details(
            two("Available servers: ", display_candidates(&candidates).as_str()).as_str(),
        ).with_suggestion(suggestion.as_str())
    }

    pub fn tool_not_found(server: &str, tool: &str, available: &[&str]) -> (r: Self)
        ensures
            r@ == plain_error(
                ErrorKind::ToolNotFound,
                "Tool \""@ + safe_label_of(tool@) + "\" not found in server \""@ + safe_label_of(
                    server@,
                ) + "\""@,
            ).details(
                "Available tools: "@ + displayed_candidates(
                    candidates_of(text::slices(available@)),
                ),
            ).suggestion(
                "Run 'mcp-cli info "@ + safe_label_of(server@)
                    + "' to see available tools and schemas"@,
            ),
    {
        let server = safe_label(server);
        let tool = safe_label(tool);
        let candidates = safe_candidates(available);
        CliError::from_kind(
            ErrorKind::ToolNotFound,
            five("Tool \"", tool.as_str(), "\" not found in server \"", server.as_str(), "\"").as_str(),
        ).with_details(
            two("Available tools: ", display_candidates(&candidates).as_str()).as_str(),
        ).with_suggestion(
            three(
                "Run 'mcp-cli info ",
                server.as_str(),
                "' to see available tools and schemas",
            ).as_str(),
        )
    }

    pub fn tool_disabled(server: &str, tool: &str) -> (r: Self)
        ensures
            r@ == plain_error(
                ErrorKind::ToolDisabled,
                "Tool \""@ + safe_label_of(tool@) + "\" is disabled for server \""@
                    + safe_label_of(server@) + "\""@,
            ).suggestion("Check allowedTools and disabledTools in mcp_servers.json"@),
    {
        CliError::from_kind(
            ErrorKind::ToolDisabled,
            five(
                "Tool \"",
                safe_label(tool).as_str(),
                "\" is disabled for server \"",
                safe_label(server).as_str(),
                "\"",
            ).as_str(),
        ).with_suggestion("Check allowedTools and disabledTools in mcp_servers.json")
    }

    pub fn invalid_json(safe_details: &str) -> (r: Self)
        ensures
            r@ == plain_error(ErrorKind::InvalidJson, "Invalid JSON in tool arguments"@).details(
                safe_details@,
            ).suggestion("Provide a valid JSON object; use info to inspect the tool schema"@),
    {
        CliError::from_kind(
            ErrorKind::InvalidJson,
            "Invalid JSON in tool arguments",
        ).with_details(safe_details).with_suggestion(
            "Provide a valid JSON object; use info to inspect the tool schema",
        )
    }

    pub fn input_too_large(actual_bytes: usize, maximum_bytes: usize) -> (r: Self)
        ensures
            r@ == plain_error(
                ErrorKind::InputTooLarge,
                "Tool input exceeds the maximum size"@,
            ).details(
                "Input is "@ + text::decimal(actual_bytes as nat) + " bytes; maximum is "@
                    + text::decimal(maximum_bytes as nat) + " bytes"@,
            ).suggestion("Reduce the JSON input size and retry"@),
    {
        CliError::from_kind(
            ErrorKind::InputTooLarge,
            "Tool input exceeds the maximum size",
        ).with_details(
            five(
                "Input is ",
                decimal_text(actual_bytes as u128).as_str(),
                " bytes; maximum is ",
                decimal_text(maximum_bytes as u128).as_str(),
                " bytes",
            ).as_str(),
        ).with_suggestion("Reduce the JSON input size and retry")
    }

    pub fn security_error(message: &str, safe_details: &str) -> (r: Self)
        ensures
            r@ == plain_error(ErrorKind::SecurityError, message@).details(
                safe_details@,
            ).suggestion(
                "Correct the unsafe path, ownership, or process state before retrying"@,
            ),
    {
        CliError::from_kind(ErrorKind::SecurityError, message).with_details(
            safe_details,
        ).with_suggestion("Correct the unsafe path, ownership, or process state before retrying")
    }

    pub fn tool_execution_failed(server: &str, tool: &str, safe_details: &str) -> (r: Self)
        ensures
            r@ == plain_error(
                ErrorKind::ToolExecutionFailed,
                "Tool \""@ + safe_label_of(tool@) + "\" execution failed on server \""@
                    + safe_label_of(server@) + "\""@,
            ).details(safe_details@).suggestion(
                "Run 'mcp-cli info "@ + safe_label_of(server@) + " "@ + safe_label_of(tool@)
                    + "' and verify the arguments match the input schema"@,
            ),
    {
        let server = safe_label(server);
        let tool = safe_label(tool);
        CliError::from_kind(
            ErrorKind::ToolExecutionFailed,
            five(
                "Tool \"",
                tool.as_str(),
                "\" execution failed on server \"",
                server.as_str(),
                "\"",
            ).as_str(),
        ).with_details(safe_details).with_suggestion(
            five(
                "Run 'mcp-cli info ",
                server.as_str(),
                " ",
                tool.as_str(),
                "' and verify the arguments match the input schema",
            ).as_str(),
        )
    }

    pub fn network_error(server: &str, safe_details: &str) -> (r: Self)
        ensures
            r@ == network_error_content(server@, safe_details@),
    {
        CliError::from_kind(
            ErrorKind::NetworkError,
            three(
                "Failed to communicate with server \"",
                safe_label(server).as_str(),
                "\"",
            ).as_str(),
        ).with_details(safe_details).with_suggestion(
            "Check network connectivity, the server address, and server availability",
        )
    }

    pub fn network_error_classified(server: &str, safe_details: &str, class: ErrorClass) -> (r:
        Self)
        ensures
            r@ == network_error_content(server@, safe_details@).class(class),
    {
        let mut error = CliError::network_error(server, safe_details);
        error.class = class;
        error
    }

    pub fn timeout(operation: &str) -> (r: Self)
        ensures
            r@ == plain_error(ErrorKind::Timeout, "Operation timed out"@).details(
                "Timed out while "@ + safe_label_of(operation@),
            ).suggestion("Check network connectivity or increase MCP_TIMEOUT"@),
    {
        CliError::from_kind(ErrorKind::Timeout, "Operation timed out").with_details(
            two("Timed out while ", safe_label(operation).as_str()).as_str(),
        ).with_suggestion("Check network connectivity or increase MCP_TIMEOUT")
    }

    pub fn cancelled(server: &str, operation: &str) -> (r: Self)
        ensures
            r@ == network_error_content(
                server@,
                "Cancelled while "@ + safe_label_of(operation@),
            ).class(ErrorClass::Cancelled),
    {
        CliError::network_error_classified(
            server,
            two("Cancelled while ", safe_label(operation).as_str()).as_str(),
            ErrorClass::Cancelled,
        )
    }

    pub fn auth_error(server: &str, status: u16) -> (r: Self)
        ensures
            r@ == auth_error_content(server@, status),
    {
        CliError::from_kind(
            ErrorKind::AuthError,
            three(
                "Authentication or authorization failed for server \"",
                safe_label(server).as_str(),
                "\"",
            ).as_str(),
        ).with_details(
            two("HTTP status: ", decimal_text(status as u128).as_str()).as_str(),
        ).with_suggestion(
            "Check the Authorization header, credentials, and access permissions in config",
        )
    }

    /// Maps a structured HTTP status without parsing user-visible text. Server
    /// context and status are retained; credential/header values are never
    /// accepted by this constructor.
    pub fn http_status(server: &str, status: u16) -> (r: Self)
        ensures
            r@ == (if retry::http_class(status) == ErrorClass::Auth {
                auth_error_content(server@, status)
            } else {
                network_error_content(
                    server@,
                    "HTTP status: "@ + text::decimal(status as nat),
                ).class(retry::http_class(status))
            }),
    {
        let class = classify_http_status(status);
        if class == ErrorClass::Auth {
            return CliError::auth_error(server, status);
        }
        CliError::network_error_classified(
            server,
            two("HTTP status: ", decimal_text(status as u128).as_str()).as_str(),
            class,
        )
    }
}

/// The error for failed communication with a server.
pub open spec fn network_error_content(server: Seq<char>, details: Seq<char>) -> ErrorContent {
    plain_error(
        ErrorKind::NetworkError,
        "Failed to communicate with server \""@ + safe_label_of(server) + "\""@,
    ).details(details).suggestion(
        "Check network connectivity, the server address, and server availability"@,
    )
}

/// The error for refused credentials.
pub open spec fn auth_error_content(server: Seq<char>, status: u16) -> ErrorContent {
    plain_error(
        ErrorKind::AuthError,
        "Authentication or authorization failed for server \""@ + safe_label_of(server) + "\""@,
    ).details("HTTP status: "@ + text::decimal(status as nat)).suggestion(
        "Check the Authorization header, credentials, and access permissions in config"@,
    )
}

impl ClassifyError for CliError {
    fn class(&self) -> (r: ErrorClass)
        ensures
            r == self@.class,
    {
        self.error_class()
    }
}

fn optional_equal(left: &Option<String>, right: &Option<String>) -> (r: bool)
    ensures
        r == (text::optional(*left) == text::optional(*right)),
{
    match (left, right) {
        (Some(a), Some(b)) => str_equal(a.as_str(), b.as_str()),
        (None, None) => true,
        _ => false,
    }
}

impl PartialEq for CliError {
    /// Equality leaves the retained cause and the redaction mark out.
    fn eq(&self, other: &Self) -> (r: bool) {
        self.kind == other.kind && str_equal(self.message.as_str(), other.message.as_str())
            && optional_equal(&self.details, &other.details) && optional_equal(
            &self.suggestion,
            &other.suggestion,
        ) && self.exit_code == other.exit_code && self.class == other.class
    }
}

impl vstd::std_specs::cmp::PartialEqSpecImpl for CliError {
    open spec fn obeys_eq_spec() -> bool {
        true
    }

    open spec fn eq_spec(&self, other: &Self) -> bool {
        &&& self@.kind == other@.kind
        &&& self@.message == other@.message
        &&& self@.details == other@.details
        &&& self@.suggestion == other@.suggestion
        &&& self@.exit_code == other@.exit_code
        &&& self@.class == other@.class
    }
}

impl Eq for CliError {

}

/// The exit statuses that scripts rely on: a tool's own failure is 2, failed
/// communication and timeouts are 3, refused credentials are 4, every other
/// failure is 1, and no failure exits as a success.
pub proof fn exit_statuses_tell_failures_apart(
    kind: ErrorKind,
    code: ExitCode,
    status: u8,
    class: ErrorClass,
)
    requires
        call_ensures(ErrorKind::exit_code, (kind,), code),
        call_ensures(ExitCode::as_u8, (code,), status),
        call_ensures(ErrorKind::error_class, (kind,), class),
    ensures
        status == 2 <==> kind == ErrorKind::ToolExecutionFailed,
        status == 3 <==> kind == ErrorKind::NetworkError || kind == ErrorKind::Timeout,
        status == 4 <==> kind == ErrorKind::AuthError,
        status == 1 <==> kind != ErrorKind::ToolExecutionFailed && kind != ErrorKind::NetworkError
            && kind != ErrorKind::Timeout && kind != ErrorKind::AuthError,
        class == ErrorClass::Transient <==> kind == ErrorKind::NetworkError,
        class == ErrorClass::Auth <==> kind == ErrorKind::AuthError,
        class == ErrorClass::Business <==> kind == ErrorKind::ToolExecutionFailed,
        class != ErrorClass::Cancelled,
{
}

/// Every error is shown under the name of its kind, and the name leads back to
/// the kind alone.
pub proof fn kinds_are_shown_by_name(
    kind: ErrorKind,
    name: &'static str,
    text: &str,
    read: Option<ErrorKind>,
)
    requires
        call_ensures(ErrorKind::as_str, (kind,), name),
        call_ensures(ErrorKind::from_machine_string, (text,), read),
    ensures
        name@ == (match kind {
            ErrorKind::UnknownCommand => "UNKNOWN_COMMAND"@,
            ErrorKind::InvalidArguments => "INVALID_ARGUMENTS"@,
            ErrorKind::ConfigNotFound => "CONFIG_NOT_FOUND"@,
            ErrorKind::ConfigReadError => "CONFIG_READ_ERROR"@,
            ErrorKind::InvalidConfig => "INVALID_CONFIG"@,
            ErrorKind::MissingEnvVar => "MISSING_ENV_VAR"@,
            ErrorKind::InvalidRuntimeConfig => "INVALID_RUNTIME_CONFIG"@,
            ErrorKind::InvalidServerConfig => "INVALID_SERVER_CONFIG"@,
            ErrorKind::ServerNotFound => "SERVER_NOT_FOUND"@,
            ErrorKind::ToolNotFound => "TOOL_NOT_FOUND"@,
            ErrorKind::ToolDisabled => "TOOL_DISABLED"@,
            ErrorKind::InvalidJson => "INVALID_JSON"@,
            ErrorKind::InputTooLarge => "INPUT_TOO_LARGE"@,
            ErrorKind::SecurityError => "SECURITY_ERROR"@,
            ErrorKind::ToolExecutionFailed => "TOOL_EXECUTION_FAILED"@,
            ErrorKind::NetworkError => "NETWORK_ERROR"@,
            ErrorKind::Timeout => "TIMEOUT"@,
            ErrorKind::AuthError => "AUTH_ERROR"@,
        }),
        text@ == name@ ==> read == Some(kind),
        read matches Some(found) ==> text@ == kind_text(found),
{
}

/// A new error exits with the code of its kind, whatever code was asked for, and
/// has the retry category of its kind; what is added later changes one field
/// and leaves the others.
pub proof fn errors_are_built_field_by_field(
    kind: ErrorKind,
    message: &str,
    asked: ExitCode,
    plain: CliError,
    details: &str,
    detailed: CliError,
    suggestion: &str,
    advised: CliError,
    code: ExitCode,
)
    requires
        call_ensures(CliError::new, (kind, message, asked), plain),
        call_ensures(CliError::with_details, (plain, details), detailed),
        call_ensures(CliError::with_suggestion, (detailed, suggestion), advised),
        call_ensures(CliError::canonical_exit_code, (&advised,), code),
    ensures
        plain@.kind == kind,
        plain@.message == message@,
        plain@.details is None,
        plain@.suggestion is None,
        plain@.exit_code == code,
        plain@.class == kind_class(kind),
        !plain@.details_redacted,
        !plain@.has_source,
        detailed@.details == Some(details@),
        detailed@.suggestion is None,
        advised@.details == Some(details@),
        advised@.suggestion == Some(suggestion@),
        advised@.message == message@,
        advised@.kind == kind,
        advised@.class == plain@.class,
        advised@.exit_code == plain@.exit_code,
{
}

/// A label keeps its first 160 characters, one for one: control codes become
/// spaces and nothing else changes. Only a longer label is marked as cut.
pub proof fn labels_keep_their_characters(value: Seq<char>, i: int)
    ensures
        value.len() <= 160 ==> safe_label_of(value).len() == value.len(),
        value.len() > 160 ==> safe_label_of(value).len() == 163 && safe_label_of(value).skip(160)
            == "..."@,
        0 <= i < value.len() && i < 160 ==> safe_label_of(value)[i] == (if value[i] < ' ' || (
        '\x7f' <= value[i] && value[i] < '\u{a0}') {
            ' '
        } else {
            value[i]
        }),
{
    reveal_strlit("...");
    if value.len() > 160 {
        assert(safe_label_of(value).skip(160) =~= "..."@);
    }
    if 0 <= i < value.len() && i < 160 {
        text::control_codes_are_two_ranges(value[i], Seq::empty(), Seq::empty());
        let neutral = value.map_values(
            |c: char|
                if text::is_control(c) {
                    ' '
                } else {
                    c
                },
        );
        assert(safe_label_of(value)[i] == neutral[i]);
    }
}

/// A list of candidates shows the first five of them and counts the others.
pub proof fn candidate_lists_show_five(candidates: Seq<Seq<char>>)
    ensures
        candidates.len() == 0 ==> displayed_candidates(candidates) == "(none)"@,
        1 <= candidates.len() <= 5 ==> displayed_candidates(candidates) == text::joined(
            candidates,
            ", "@,
        ),
        candidates.len() > 5 ==> displayed_candidates(candidates) == displayed_candidates(
            candidates.take(5),
        ) + " (+"@ + text::decimal((candidates.len() - 5) as nat) + " more)"@,
{
}

/// What a server answers decides the error: refused credentials are reported as
/// such, and every other status as failed communication that is retried exactly
/// where the status may pass.
pub proof fn statuses_become_their_errors(server: &str, status: u16, failure: CliError)
    requires
        call_ensures(CliError::http_status, (server, status), failure),
    ensures
        failure@.kind == ErrorKind::AuthError <==> status == 401 || status == 403,
        failure@.kind == ErrorKind::NetworkError <==> status != 401 && status != 403,
        failure@.class == ErrorClass::Transient <==> status == 429 || status == 502 || status
            == 503 || status == 504,
        failure@.class == ErrorClass::Auth <==> status == 401 || status == 403,
        failure@.details == Some("HTTP status: "@ + text::decimal(status as nat)),
        failure@.exit_code == (if status == 401 || status == 403 {
            ExitCode::Auth
        } else {
            ExitCode::Network
        }),
{
}

/// Every kind of failure is listed once.
pub proof fn every_kind_is_listed_once(kinds: [ErrorKind; 18], kind: ErrorKind, i: int, j: int)
    requires
        call_ensures(ErrorKind::all, (), kinds),
    ensures
        exists|k: int| 0 <= k < 18 && #[trigger] kinds@[k] == kind,
        0 <= i < j < 18 ==> kinds@[i] != kinds@[j],
{
    let listed = kinds@;
    assert(listed[0] == ErrorKind::UnknownCommand);
    assert(listed[1] == ErrorKind::InvalidArguments);
    assert(listed[2] == ErrorKind::ConfigNotFound);
    assert(listed[3] == ErrorKind::ConfigReadError);
    assert(listed[4] == ErrorKind::InvalidConfig);
    assert(listed[5] == ErrorKind::MissingEnvVar);
    assert(listed[6] == ErrorKind::InvalidRuntimeConfig);
    assert(listed[7] == ErrorKind::InvalidServerConfig);
    assert(listed[8] == ErrorKind::ServerNotFound);
    assert(listed[9] == ErrorKind::ToolNotFound);
    assert(listed[10] == ErrorKind::ToolDisabled);
    assert(listed[11] == ErrorKind::InvalidJson);
    assert(listed[12] == ErrorKind::InputTooLarge);
    assert(listed[13] == ErrorKind::SecurityError);
    assert(listed[14] == ErrorKind::ToolExecutionFailed);
    assert(listed[15] == ErrorKind::NetworkError);
    assert(listed[16] == ErrorKind::Timeout);
    assert(listed[17] == ErrorKind::AuthError);
}

/// Two errors are equal exactly where everything that they show is; what caused
/// them does not count.
pub proof fn errors_are_equal_in_what_they_show(left: CliError, right: CliError)
    ensures
        vstd::std_specs::cmp::PartialEqSpec::eq_spec(&left, &right) <==> left@.kind == right@.kind
            && left@.message == right@.message && left@.details == right@.details
            && left@.suggestion == right@.suggestion && left@.exit_code == right@.exit_code
            && left@.class == right@.class,
{
}

} // verus!

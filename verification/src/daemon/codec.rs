//! Bounded, fail-closed NDJSON framing for daemon IPC.
//!
//! [`IPC_MAX_FRAME_SIZE`] applies to the JSON payload bytes only. The trailing
//! LF, or both bytes of a CRLF terminator, are not counted toward the limit.

use vstd::prelude::*;

use crate::daemon::WireMessage;
use crate::json;
use crate::json::{parse_json, parse_json_prefix};
use crate::text::is_utf8;

verus! {

/// Maximum UTF-8 JSON payload size for both requests and responses (1 MiB).
pub const IPC_MAX_FRAME_SIZE: usize = 1_048_576;

/// The byte that ends a frame.
pub const LINE_FEED: u8 = 10;

/// The byte that may stand before the end of a frame.
pub const CARRIAGE_RETURN: u8 = 13;

/// Stable, payload-free NDJSON framing failures.
#[derive(Clone, Copy, Debug, PartialEq, Eq, Structural)]
pub enum FrameError {
    FrameTooLarge,
    EmptyFrame,
    BareCarriageReturn,
    InvalidUtf8,
    InvalidJson,
    InvalidMessage,
    EmbeddedNewline,
    TruncatedFrame,
    CodecFailed,
}

impl FrameError {
    pub fn display_text(self) -> (r: &'static str)
        ensures
            r@ == (match self {
                FrameError::FrameTooLarge => "IPC frame exceeds the maximum payload size"@,
                FrameError::EmptyFrame => "empty IPC frame"@,
                FrameError::BareCarriageReturn => "bare carriage return in IPC frame"@,
                FrameError::InvalidUtf8 => "IPC frame is not valid UTF-8"@,
                FrameError::InvalidJson => "IPC frame is not valid JSON"@,
                FrameError::InvalidMessage => "IPC frame has an invalid message shape"@,
                FrameError::EmbeddedNewline => "encoded IPC frame contains an embedded newline"@,
                FrameError::TruncatedFrame => "IPC stream ended with an unterminated frame"@,
                FrameError::CodecFailed => "IPC codec is unavailable after a framing failure"@,
            }),
    {
        match self {
            FrameError::FrameTooLarge => "IPC frame exceeds the maximum payload size",
            FrameError::EmptyFrame => "empty IPC frame",
            FrameError::BareCarriageReturn => "bare carriage return in IPC frame",
            FrameError::InvalidUtf8 => "IPC frame is not valid UTF-8",
            FrameError::InvalidJson => "IPC frame is not valid JSON",
            FrameError::InvalidMessage => "IPC frame has an invalid message shape",
            FrameError::EmbeddedNewline => "encoded IPC frame contains an embedded newline",
            FrameError::TruncatedFrame => "IPC stream ended with an unterminated frame",
            FrameError::CodecFailed => "IPC codec is unavailable after a framing failure",
        }
    }
}

/// The last byte is a carriage return.
pub open spec fn ends_in_return(buffer: Seq<u8>) -> bool {
    buffer.len() > 0 && buffer.last() == CARRIAGE_RETURN
}

/// A line without the carriage return before its line feed.
pub open spec fn payload_of(line: Seq<u8>) -> Seq<u8> {
    if ends_in_return(line) {
        line.drop_last()
    } else {
        line
    }
}

/// What one byte does to the bytes of an unfinished line.
pub enum Fed {
    /// The line goes on.
    Kept(Seq<u8>),
    /// The line is complete and holds this payload.
    Frame(Seq<u8>),
    /// The stream is malformed.
    Failed(FrameError),
}

pub open spec fn feed_byte(line: Seq<u8>, byte: u8) -> Fed {
    if byte == LINE_FEED {
        if vstd::utf8::valid_utf8(payload_of(line)) {
            Fed::Frame(payload_of(line))
        } else {
            Fed::Failed(FrameError::InvalidUtf8)
        }
    } else if ends_in_return(line) {
        Fed::Failed(FrameError::BareCarriageReturn)
    } else if byte != CARRIAGE_RETURN && line.len() >= IPC_MAX_FRAME_SIZE {
        Fed::Failed(FrameError::FrameTooLarge)
    } else {
        Fed::Kept(line.push(byte))
    }
}

/// The frames that bytes complete, and the unfinished line behind them, or the
/// first failure.
#[verifier::ext_equal]
pub struct Decoded {
    pub frames: Seq<Seq<u8>>,
    pub rest: Result<Seq<u8>, FrameError>,
}

pub open spec fn feed(line: Seq<u8>, bytes: Seq<u8>) -> Decoded
    decreases bytes.len(),
{
    if bytes.len() == 0 {
        Decoded { frames: Seq::empty(), rest: Ok(line) }
    } else {
        match feed_byte(line, bytes[0]) {
            Fed::Kept(longer) => feed(longer, bytes.skip(1)),
            Fed::Frame(payload) => {
                let later = feed(Seq::empty(), bytes.skip(1));
                Decoded { frames: seq![payload] + later.frames, rest: later.rest }
            },
            Fed::Failed(failure) => Decoded { frames: Seq::empty(), rest: Err(failure) },
        }
    }
}

/// The state of a decoder.
#[verifier::ext_equal]
pub struct CodecState {
    pub line: Seq<u8>,
    pub failed: bool,
}

/// A decoder after a failure: nothing is kept.
pub open spec fn poisoned() -> CodecState {
    CodecState { line: Seq::empty(), failed: true }
}

/// What a decoder returns for bytes, and its state afterwards.
pub open spec fn frames_of(state: CodecState, bytes: Seq<u8>) -> (
    CodecState,
    Result<Seq<Seq<u8>>, FrameError>,
) {
    if state.failed {
        (state, Err(FrameError::CodecFailed))
    } else {
        let decoded = feed(state.line, bytes);
        match decoded.rest {
            Ok(line) => (CodecState { line, failed: false }, Ok(decoded.frames)),
            Err(failure) => (poisoned(), Err(failure)),
        }
    }
}

/// The failure of the first frame that is no JSON document.
pub open spec fn first_non_json(frames: Seq<Seq<u8>>) -> Option<FrameError>
    decreases frames.len(),
{
    if frames.len() == 0 {
        None
    } else if frames[0].len() == 0 {
        Some(FrameError::EmptyFrame)
    } else if json::json_document(frames[0]) is None {
        Some(FrameError::InvalidJson)
    } else {
        first_non_json(frames.skip(1))
    }
}

/// What a decoder returns that only lets JSON documents through.
pub open spec fn documents_of(state: CodecState, bytes: Seq<u8>) -> (
    CodecState,
    Result<Seq<Seq<u8>>, FrameError>,
) {
    let (next, result) = frames_of(state, bytes);
    match result {
        Ok(frames) => match first_non_json(frames) {
            Some(failure) => (poisoned(), Err(failure)),
            None => (next, Ok(frames)),
        },
        Err(failure) => (next, Err(failure)),
    }
}

/// The message of one delimited payload, or the reason why it has none.
pub open spec fn decoded<T: WireMessage>(payload: Seq<u8>) -> Result<T::V, FrameError> {
    if payload.len() > IPC_MAX_FRAME_SIZE {
        Err(FrameError::FrameTooLarge)
    } else if payload.len() == 0 {
        Err(FrameError::EmptyFrame)
    } else if payload.contains(LINE_FEED) || payload.contains(CARRIAGE_RETURN) {
        Err(FrameError::EmbeddedNewline)
    } else if !vstd::utf8::valid_utf8(payload) {
        Err(FrameError::InvalidUtf8)
    } else {
        match json::json_prefix(payload) {
            None => Err(FrameError::InvalidJson),
            Some(value) => match T::wire_read(value) {
                Err(_) => Err(FrameError::InvalidMessage),
                Ok(content) => if json::json_document(payload) is Some {
                    Ok(content)
                } else {
                    Err(FrameError::InvalidJson)
                },
            },
        }
    }
}

/// The messages of a sequence of payloads, or the first failure.
pub open spec fn decoded_all<T: WireMessage>(frames: Seq<Seq<u8>>) -> Result<Seq<T::V>, FrameError>
    decreases frames.len(),
{
    if frames.len() == 0 {
        Ok(Seq::empty())
    } else {
        match decoded_all::<T>(frames.drop_last()) {
            Err(failure) => Err(failure),
            Ok(messages) => match decoded::<T>(frames.last()) {
                Err(failure) => Err(failure),
                Ok(message) => Ok(messages.push(message)),
            },
        }
    }
}

/// What a decoder returns for bytes as messages, and its state afterwards.
pub open spec fn messages_of<T: WireMessage>(state: CodecState, bytes: Seq<u8>) -> (
    CodecState,
    Result<Seq<T::V>, FrameError>,
) {
    let (next, result) = documents_of(state, bytes);
    match result {
        Ok(frames) => match decoded_all::<T>(frames) {
            Ok(messages) => (next, Ok(messages)),
            Err(failure) => (poisoned(), Err(failure)),
        },
        Err(failure) => (next, Err(failure)),
    }
}

/// The contents of a list of frames.
pub open spec fn frame_bytes(frames: Seq<Vec<u8>>) -> Seq<Seq<u8>> {
    frames.map_values(|frame: Vec<u8>| frame@)
}

/// The contents of a list of messages.
pub open spec fn message_contents<T: WireMessage>(messages: Seq<T>) -> Seq<T::V> {
    messages.map_values(|message: T| message@)
}

/// The result shows the frames that the model says.
pub open spec fn returns_frames(
    result: Result<Vec<Vec<u8>>, FrameError>,
    model: Result<Seq<Seq<u8>>, FrameError>,
) -> bool {
    match model {
        Ok(frames) => result matches Ok(returned) && frame_bytes(returned@) == frames,
        Err(failure) => result matches Err(failed) && failed == failure,
    }
}

/// Incremental NDJSON decoder with bounded memory and fail-closed semantics.
///
/// A codec that reports any error is poisoned: its buffered bytes are erased
/// and all later operations return [`FrameError::CodecFailed`]. This prevents
/// callers from accidentally resynchronizing an untrusted stream after a
/// malformed or oversized frame.
#[derive(Debug)]
pub struct NdjsonCodec {
    buffer: Vec<u8>,
    failed: bool,
}

impl View for NdjsonCodec {
    type V = CodecState;

    closed spec fn view(&self) -> CodecState {
        CodecState { line: self.buffer@, failed: self.failed }
    }
}

/// A state that a decoder can be in: the line is within its limit, holds no
/// line feed, and no carriage return but a provisional one at its end.
pub open spec fn reachable(state: CodecState) -> bool {
    &&& state.failed ==> state.line.len() == 0
    &&& payload_of(state.line).len() <= IPC_MAX_FRAME_SIZE
    &&& !state.line.contains(LINE_FEED)
    &&& !payload_of(state.line).contains(CARRIAGE_RETURN)
}

impl Default for NdjsonCodec {
    fn default() -> (r: Self)
        ensures
            r@ == (CodecState { line: Seq::empty(), failed: false }),
            reachable(r@),
    {
        NdjsonCodec { buffer: Vec::new(), failed: false }
    }
}

proof fn lemma_kept(line: Seq<u8>, byte: u8)
    requires
        reachable(CodecState { line, failed: false }),
        feed_byte(line, byte) is Kept,
    ensures
        reachable(CodecState { line: line.push(byte), failed: false }),
{
    let longer = line.push(byte);
    assert(payload_of(line) == line);
    if longer.contains(LINE_FEED) {
        let i = choose|i: int| 0 <= i < longer.len() && longer[i] == LINE_FEED;
        assert(line[i] == LINE_FEED);
    }
    if byte == CARRIAGE_RETURN {
        assert(payload_of(longer) =~= line);
    } else {
        assert(payload_of(longer) == longer);
        if longer.contains(CARRIAGE_RETURN) {
            let i = choose|i: int| 0 <= i < longer.len() && longer[i] == CARRIAGE_RETURN;
            assert(line[i] == CARRIAGE_RETURN);
        }
    }
}

impl NdjsonCodec {
    pub fn new() -> (r: Self)
        ensures
            r@ == (CodecState { line: Seq::empty(), failed: false }),
            reachable(r@),
    {
        NdjsonCodec { buffer: Vec::new(), failed: false }
    }

    pub fn is_failed(&self) -> (r: bool)
        ensures
            r == self@.failed,
    {
        self.failed
    }

    /// The number of buffered bytes: at most the payload limit and one
    /// provisional carriage return.
    pub fn buffered_len(&self) -> (r: usize)
        requires
            reachable(self@),
        ensures
            r == self@.line.len(),
            r <= IPC_MAX_FRAME_SIZE + 1,
    {
        self.buffer.len()
    }

    fn poison(&mut self)
        ensures
            final(self)@ == poisoned(),
    {
        self.buffer = Vec::new();
        self.failed = true;
    }

    /// Feeds arbitrary bytes and returns every complete JSON payload.
    ///
    /// Returned payloads exclude the LF/CRLF terminator. UTF-8 and JSON syntax
    /// are validated before a frame is returned. Use [`Self::push_request_frames`]
    /// at an RPC boundary that must recover from request-level JSON errors.
    pub fn push(&mut self, bytes: &[u8]) -> (r: Result<Vec<Vec<u8>>, FrameError>)
        requires
            reachable(old(self)@),
        ensures
            reachable(final(self)@),
            final(self)@ == documents_of(old(self)@, bytes@).0,
            returns_frames(r, documents_of(old(self)@, bytes@).1),
    {
        let frames = match self.push_request_frames(bytes) {
            Ok(frames) => frames,
            Err(failure) => return Err(failure),
        };
        let ghost all = frame_bytes(frames@);
        let mut index: usize = 0;
        assert(all.skip(0) =~= all);
        while index < frames.len()
            invariant
                index <= frames.len(),
                all == frame_bytes(frames@),
                self@ == frames_of(old(self)@, bytes@).0,
                frames_of(old(self)@, bytes@).1 == Ok::<Seq<Seq<u8>>, FrameError>(all),
                reachable(self@),
                first_non_json(all) == first_non_json(all.skip(index as int)),
            decreases frames.len() - index,
        {
            let frame = &frames[index];
            assert(all.skip(index as int)[0] == frame@);
            assert(all.skip(index as int).skip(1) =~= all.skip(index + 1));
            if frame.len() == 0 {
                self.poison();
                return Err(FrameError::EmptyFrame);
            }
            if parse_json(frame.as_slice()).is_none() {
                self.poison();
                return Err(FrameError::InvalidJson);
            }
            index += 1;
        }
        Ok(frames)
    }

    /// Feeds arbitrary bytes and returns complete UTF-8 request frames without
    /// validating their JSON syntax or model shape.
    ///
    /// This is the daemon worker boundary: malformed JSON is a recoverable RPC
    /// error, while framing violations (oversize, invalid UTF-8, or bare CR)
    /// poison the codec and require closing only that client connection.
    pub fn push_request_frames(&mut self, bytes: &[u8]) -> (r: Result<Vec<Vec<u8>>, FrameError>)
        requires
            reachable(old(self)@),
        ensures
            reachable(final(self)@),
            final(self)@ == frames_of(old(self)@, bytes@).0,
            returns_frames(r, frames_of(old(self)@, bytes@).1),
    {
        if self.failed {
            return Err(FrameError::CodecFailed);
        }
        let ghost whole = feed(self.buffer@, bytes@);
        let mut frames: Vec<Vec<u8>> = Vec::new();
        let mut index: usize = 0;
        assert(bytes@.skip(0) =~= bytes@);
        assert(frame_bytes(frames@) =~= Seq::<Seq<u8>>::empty());
        assert(whole =~= Decoded { frames: frame_bytes(frames@) + whole.frames, rest: whole.rest });
        while index < bytes.len()
            invariant
                index <= bytes.len(),
                !self.failed,
                reachable(self@),
                !old(self)@.failed,
                whole == feed(old(self)@.line, bytes@),
                whole == (Decoded {
                    frames: frame_bytes(frames@) + feed(
                        self.buffer@,
                        bytes@.skip(index as int),
                    ).frames,
                    rest: feed(self.buffer@, bytes@.skip(index as int)).rest,
                }),
            decreases bytes.len() - index,
        {
            let byte = bytes[index];
            let ghost line = self.buffer@;
            let ghost earlier = frame_bytes(frames@);
            let ghost later = bytes@.skip(index + 1);
            assert(bytes@.skip(index as int)[0] == byte);
            assert(bytes@.skip(index as int).skip(1) =~= later);
            let returned = self.buffer.len() > 0 && self.buffer[self.buffer.len() - 1]
                == CARRIAGE_RETURN;
            if byte == LINE_FEED {
                if returned {
                    let _ = self.buffer.pop();
                }
                assert(self.buffer@ =~= payload_of(line));
                if !is_utf8(self.buffer.as_slice()) {
                    self.poison();
                    return Err(FrameError::InvalidUtf8);
                }
                let mut frame: Vec<u8> = Vec::new();
                core::mem::swap(&mut frame, &mut self.buffer);
                let ghost payload = frame@;
                frames.push(frame);
                proof {
                    assert(frame_bytes(frames@) =~= earlier.push(payload));
                    assert(self.buffer@ =~= Seq::<u8>::empty());
                    let tail = feed(Seq::empty(), later);
                    assert(earlier + (seq![payload] + tail.frames) =~= earlier.push(payload)
                        + tail.frames);
                }
            } else if returned {
                self.poison();
                return Err(FrameError::BareCarriageReturn);
            } else if byte != CARRIAGE_RETURN && self.buffer.len() >= IPC_MAX_FRAME_SIZE {
                self.poison();
                return Err(FrameError::FrameTooLarge);
            } else {
                proof {
                    lemma_kept(line, byte);
                }
                // One provisional CR beyond the payload limit is safe because
                // it can only be the excluded half of a CRLF terminator.
                self.buffer.push(byte);
            }
            index += 1;
        }
        assert(bytes@.skip(index as int).len() == 0);
        assert(frame_bytes(frames@) + Seq::<Seq<u8>>::empty() =~= frame_bytes(frames@));
        Ok(frames)
    }

    /// Feeds bytes and deserializes all completed frames into one IPC model.
    pub fn push_messages<T: WireMessage>(&mut self, bytes: &[u8]) -> (r: Result<Vec<T>, FrameError>)
        requires
            reachable(old(self)@),
        ensures
            reachable(final(self)@),
            final(self)@ == messages_of::<T>(old(self)@, bytes@).0,
            match messages_of::<T>(old(self)@, bytes@).1 {
                Ok(messages) => r matches Ok(returned) && message_contents(returned@) == messages,
                Err(failure) => r matches Err(failed) && failed == failure,
            },
    {
        let frames = match self.push(bytes) {
            Ok(frames) => frames,
            Err(failure) => return Err(failure),
        };
        let ghost all = frame_bytes(frames@);
        let mut messages: Vec<T> = Vec::new();
        let mut index: usize = 0;
        assert(message_contents(messages@) =~= Seq::<T::V>::empty());
        while index < frames.len()
            invariant
                index <= frames.len(),
                all == frame_bytes(frames@),
                self@ == documents_of(old(self)@, bytes@).0,
                documents_of(old(self)@, bytes@).1 == Ok::<Seq<Seq<u8>>, FrameError>(all),
                reachable(self@),
                decoded_all::<T>(all.take(index as int)) == Ok::<Seq<T::V>, FrameError>(
                    message_contents(messages@),
                ),
            decreases frames.len() - index,
        {
            proof {
                let seen = all.take(index + 1);
                assert(seen.drop_last() =~= all.take(index as int));
                assert(seen.last() == frames@[index as int]@);
            }
            match decode_message::<T>(frames[index].as_slice()) {
                Ok(message) => {
                    let ghost before = message_contents(messages@);
                    let ghost content = message@;
                    messages.push(message);
                    assert(message_contents(messages@) =~= before.push(content));
                },
                Err(failure) => {
                    proof {
                        lemma_first_failure::<T>(all, index + 1);
                    }
                    self.poison();
                    return Err(failure);
                },
            }
            index += 1;
        }
        assert(all.take(index as int) =~= all);
        Ok(messages)
    }

    /// Completes the stream. Only an empty buffer is a valid EOF.
    pub fn finish(&mut self) -> (r: Result<Option<Vec<u8>>, FrameError>)
        requires
            reachable(old(self)@),
        ensures
            reachable(final(self)@),
            if old(self)@.failed {
                r matches Err(failure) && failure == FrameError::CodecFailed && final(self)@ == old(
                    self,
                )@
            } else if old(self)@.line.len() == 0 {
                r matches Ok(None) && final(self)@ == old(self)@
            } else {
                r matches Err(failure) && final(self)@ == poisoned() && failure == (
                if ends_in_return(old(self)@.line) {
                    FrameError::BareCarriageReturn
                } else {
                    FrameError::TruncatedFrame
                })
            },
    {
        if self.failed {
            return Err(FrameError::CodecFailed);
        }
        if self.buffer.len() == 0 {
            return Ok(None);
        }
        let returned = self.buffer[self.buffer.len() - 1] == CARRIAGE_RETURN;
        self.poison();
        if returned {
            Err(FrameError::BareCarriageReturn)
        } else {
            Err(FrameError::TruncatedFrame)
        }
    }
}

/// A failure among the first frames is the failure of all of them.
proof fn lemma_first_failure<T: WireMessage>(frames: Seq<Seq<u8>>, n: int)
    requires
        0 <= n <= frames.len(),
        decoded_all::<T>(frames.take(n)) is Err,
    ensures
        decoded_all::<T>(frames) == decoded_all::<T>(frames.take(n)),
    decreases frames.len(),
{
    if n == frames.len() {
        assert(frames.take(n) =~= frames);
    } else {
        assert(frames.drop_last().take(n) =~= frames.take(n));
        lemma_first_failure::<T>(frames.drop_last(), n);
    }
}

/// Whether some byte is the given one.
fn contains_byte(bytes: &[u8], wanted: u8) -> (r: bool)
    ensures
        r == bytes@.contains(wanted),
{
    let mut index: usize = 0;
    while index < bytes.len()
        invariant
            index <= bytes.len(),
            forall|i: int| 0 <= i < index ==> bytes@[i] != wanted,
        decreases bytes.len() - index,
    {
        if bytes[index] == wanted {
            assert(bytes@[index as int] == wanted);
            return true;
        }
        index += 1;
    }
    false
}

/// The frame of a message, or the reason why it has none.
pub open spec fn encoded<T: WireMessage>(content: T::V) -> Result<Seq<u8>, FrameError> {
    match T::wire_text(content) {
        Err(_) => Err(FrameError::InvalidMessage),
        Ok(payload) => if payload.len() > IPC_MAX_FRAME_SIZE {
            Err(FrameError::FrameTooLarge)
        } else {
            Ok(payload.push(LINE_FEED))
        },
    }
}

/// Serializes one model as a bounded LF-terminated NDJSON frame.
///
/// Model validation is part of this boundary. Serializer diagnostics are
/// deliberately not surfaced. A fresh decoder gives exactly this message back.
pub fn encode_message<T: WireMessage>(message: &T) -> (r: Result<Vec<u8>, FrameError>)
    ensures
        match encoded::<T>(message@) {
            Ok(frame) => r matches Ok(bytes) && bytes@ == frame,
            Err(failure) => r matches Err(failed) && failed == failure,
        },
        T::restorable(message@) ==> (r matches Ok(bytes) ==> messages_of::<T>(
            CodecState { line: Seq::empty(), failed: false },
            bytes@,
        ) == (
            CodecState { line: Seq::empty(), failed: false },
            Ok::<Seq<T::V>, FrameError>(seq![message@]),
        )),
{
    let mut payload = match message.to_wire() {
        Ok(payload) => payload,
        Err(_) => return Err(FrameError::InvalidMessage),
    };
    if payload.len() > IPC_MAX_FRAME_SIZE {
        return Err(FrameError::FrameTooLarge);
    }
    let ghost line = payload@;
    payload.push(LINE_FEED);
    proof {
        if T::restorable(message@) {
            lemma_encoded_frame::<T>(line, message@);
        }
    }
    Ok(payload)
}

/// Deserializes one already-delimited payload and enforces the same size and
/// newline rules used by the streaming decoder.
pub fn decode_message<T: WireMessage>(payload: &[u8]) -> (r: Result<T, FrameError>)
    ensures
        match decoded::<T>(payload@) {
            Ok(content) => r matches Ok(message) && message@ == content,
            Err(failure) => r matches Err(failed) && failed == failure,
        },
{
    if payload.len() > IPC_MAX_FRAME_SIZE {
        return Err(FrameError::FrameTooLarge);
    }
    if payload.len() == 0 {
        return Err(FrameError::EmptyFrame);
    }
    if contains_byte(payload, LINE_FEED) || contains_byte(payload, CARRIAGE_RETURN) {
        return Err(FrameError::EmbeddedNewline);
    }
    if !is_utf8(payload) {
        return Err(FrameError::InvalidUtf8);
    }
    let value = match parse_json_prefix(payload) {
        Some(value) => value,
        None => return Err(FrameError::InvalidJson),
    };
    let message = match T::from_wire(value) {
        Ok(message) => message,
        Err(_) => return Err(FrameError::InvalidMessage),
    };
    if parse_json(payload).is_none() {
        return Err(FrameError::InvalidJson);
    }
    Ok(message)
}

/// A line without line breaks that fits is kept byte by byte.
proof fn lemma_feed_line(line: Seq<u8>, bytes: Seq<u8>)
    requires
        line.len() + bytes.len() <= IPC_MAX_FRAME_SIZE,
        !line.contains(CARRIAGE_RETURN),
        !bytes.contains(LINE_FEED),
        !bytes.contains(CARRIAGE_RETURN),
    ensures
        feed(line, bytes) == (Decoded { frames: Seq::empty(), rest: Ok(line + bytes) }),
    decreases bytes.len(),
{
    if bytes.len() == 0 {
        assert(line + bytes =~= line);
    } else {
        let byte = bytes[0];
        let rest = bytes.skip(1);
        assert(bytes.contains(byte));
        if ends_in_return(line) {
            assert(line.contains(line.last()));
        }
        assert(!line.push(byte).contains(CARRIAGE_RETURN)) by {
            if line.push(byte).contains(CARRIAGE_RETURN) {
                let i = choose|i: int|
                    0 <= i < line.push(byte).len() && line.push(byte)[i] == CARRIAGE_RETURN;
                if i < line.len() {
                    assert(line[i] == CARRIAGE_RETURN);
                }
            }
        }
        assert forall|wanted: u8| rest.contains(wanted) implies bytes.contains(wanted) by {
            let i = choose|i: int| 0 <= i < rest.len() && rest[i] == wanted;
            assert(bytes[i + 1] == wanted);
        }
        lemma_feed_line(line.push(byte), rest);
        assert(line.push(byte) + rest =~= line + bytes);
    }
}

/// Feeding bytes in two parts gives what feeding them at once gives.
pub proof fn feeding_does_not_depend_on_chunks(line: Seq<u8>, first: Seq<u8>, second: Seq<u8>)
    ensures
        match feed(line, first).rest {
            Ok(rest) => feed(line, first + second) == (Decoded {
                frames: feed(line, first).frames + feed(rest, second).frames,
                rest: feed(rest, second).rest,
            }),
            Err(_) => feed(line, first + second) == feed(line, first),
        },
    decreases first.len(),
{
    let both = first + second;
    if first.len() == 0 {
        assert(both =~= second);
        assert(Seq::<Seq<u8>>::empty() + feed(line, second).frames =~= feed(line, second).frames);
    } else {
        let tail = first.skip(1);
        assert(both[0] == first[0]);
        assert(both.skip(1) =~= tail + second);
        match feed_byte(line, first[0]) {
            Fed::Kept(longer) => {
                feeding_does_not_depend_on_chunks(longer, tail, second);
            },
            Fed::Frame(payload) => {
                feeding_does_not_depend_on_chunks(Seq::empty(), tail, second);
                let later = feed(Seq::empty(), tail);
                match later.rest {
                    Ok(rest) => {
                        assert(seq![payload] + (later.frames + feed(rest, second).frames) =~= (seq![
                            payload,
                        ] + later.frames) + feed(rest, second).frames);
                    },
                    Err(_) => {},
                }
            },
            Fed::Failed(_) => {},
        }
    }
}

/// A payload that keeps to the rules is decoded as exactly one frame, whether a
/// line feed or a carriage return and a line feed end it.
pub proof fn terminated_payloads_are_one_frame(payload: Seq<u8>)
    requires
        payload.len() <= IPC_MAX_FRAME_SIZE,
        !payload.contains(LINE_FEED),
        !payload.contains(CARRIAGE_RETURN),
        vstd::utf8::valid_utf8(payload),
    ensures
        feed(Seq::empty(), payload.push(LINE_FEED)) == (Decoded {
            frames: seq![payload],
            rest: Ok(Seq::empty()),
        }),
        feed(Seq::empty(), payload.push(CARRIAGE_RETURN).push(LINE_FEED)) == (Decoded {
            frames: seq![payload],
            rest: Ok(Seq::empty()),
        }),
{
    let empty = Seq::<u8>::empty();
    lemma_feed_line(empty, payload);
    assert(empty + payload =~= payload);
    let feed_only = seq![LINE_FEED];
    let return_feed = seq![CARRIAGE_RETURN, LINE_FEED];
    feeding_does_not_depend_on_chunks(empty, payload, feed_only);
    feeding_does_not_depend_on_chunks(empty, payload, return_feed);
    assert(payload + feed_only =~= payload.push(LINE_FEED));
    assert(payload + return_feed =~= payload.push(CARRIAGE_RETURN).push(LINE_FEED));
    if ends_in_return(payload) {
        assert(payload.contains(payload.last()));
    }
    assert(feed_only.skip(1) =~= empty);
    assert(return_feed.skip(1) =~= feed_only);
    assert(payload_of(payload.push(CARRIAGE_RETURN)) =~= payload);
    reveal_with_fuel(feed, 3);
    assert(feed(payload, feed_only).frames =~= seq![payload]);
    assert(feed(payload, return_feed).frames =~= seq![payload]);
    assert(Seq::<Seq<u8>>::empty() + seq![payload] =~= seq![payload]);
}

/// The first byte beyond the payload limit ends the stream, whatever follows.
pub proof fn oversized_payloads_are_refused(payload: Seq<u8>, more: Seq<u8>)
    requires
        payload.len() == IPC_MAX_FRAME_SIZE + 1,
        !payload.contains(LINE_FEED),
        !payload.contains(CARRIAGE_RETURN),
    ensures
        feed(Seq::empty(), payload + more) == (Decoded {
            frames: Seq::empty(),
            rest: Err(FrameError::FrameTooLarge),
        }),
{
    let empty = Seq::<u8>::empty();
    let full = payload.drop_last();
    let last = seq![payload.last()];
    assert(payload.contains(payload.last()));
    assert forall|wanted: u8| full.contains(wanted) implies payload.contains(wanted) by {
        let i = choose|i: int| 0 <= i < full.len() && full[i] == wanted;
        assert(payload[i] == wanted);
    }
    lemma_feed_line(empty, full);
    assert(empty + full =~= full);
    if ends_in_return(full) {
        assert(full.contains(full.last()));
    }
    feeding_does_not_depend_on_chunks(empty, full, last);
    assert(full + last =~= payload);
    assert(Seq::<Seq<u8>>::empty() + Seq::<Seq<u8>>::empty() =~= Seq::<Seq<u8>>::empty());
    feeding_does_not_depend_on_chunks(empty, payload, more);
}

/// The frame of a restorable message is decoded as that message.
proof fn lemma_encoded_frame<T: WireMessage>(payload: Seq<u8>, content: T::V)
    requires
        payload.len() <= IPC_MAX_FRAME_SIZE,
        json::printable(payload),
        vstd::utf8::valid_utf8(payload),
        json::json_document(payload) matches Some(value) && json::json_prefix(payload) == Some(
            value,
        ) && T::wire_read(value) == Ok::<T::V, crate::daemon::IpcModelError>(content),
    ensures
        messages_of::<T>(CodecState { line: Seq::empty(), failed: false }, payload.push(LINE_FEED))
            == (
            CodecState { line: Seq::empty(), failed: false },
            Ok::<Seq<T::V>, FrameError>(seq![content]),
        ),
{
    assert forall|wanted: u8| wanted < 0x20 implies !payload.contains(wanted) by {
        if payload.contains(wanted) {
            let i = choose|i: int| 0 <= i < payload.len() && payload[i] == wanted;
            assert(payload[i] >= 0x20);
        }
    }
    terminated_payloads_are_one_frame(payload);
    let frames = seq![payload];
    assert(frames.skip(1) =~= Seq::<Seq<u8>>::empty());
    reveal_with_fuel(first_non_json, 2);
    assert(first_non_json(frames) is None);
    assert(frames.drop_last() =~= Seq::<Seq<u8>>::empty());
    reveal_with_fuel(decoded_all, 2);
    assert(decoded_all::<T>(frames.drop_last()) == Ok::<Seq<T::V>, FrameError>(Seq::empty()));
    assert(decoded::<T>(payload) == Ok::<T::V, FrameError>(content));
    assert(Seq::<T::V>::empty().push(content) =~= seq![content]);
}

/// After any failure nothing is kept, and everything that follows fails.
pub proof fn failures_are_final<T: WireMessage>(state: CodecState, bytes: Seq<u8>, more: Seq<u8>)
    requires
        reachable(state),
    ensures
        frames_of(state, bytes).1 is Err ==> frames_of(state, bytes).0 == poisoned(),
        documents_of(state, bytes).1 is Err ==> documents_of(state, bytes).0 == poisoned(),
        messages_of::<T>(state, bytes).1 is Err ==> messages_of::<T>(state, bytes).0 == poisoned(),
        frames_of(poisoned(), more) == (
            poisoned(),
            Err::<Seq<Seq<u8>>, FrameError>(FrameError::CodecFailed),
        ),
        documents_of(poisoned(), more) == (
            poisoned(),
            Err::<Seq<Seq<u8>>, FrameError>(FrameError::CodecFailed),
        ),
        messages_of::<T>(poisoned(), more) == (
            poisoned(),
            Err::<Seq<T::V>, FrameError>(FrameError::CodecFailed),
        ),
{
    if state.failed {
        assert(state.line =~= Seq::<u8>::empty());
    }
}

/// What one byte does to a line: a line feed ends it, a carriage return may only
/// stand right before that, and a line holds at most one mebibyte.
pub proof fn lines_end_at_line_feeds(line: Seq<u8>, byte: u8)
    requires
        reachable(CodecState { line, failed: false }),
    ensures
        byte == 10 && (line.len() == 0 || line.last() != 13) && vstd::utf8::valid_utf8(line)
            ==> feed_byte(line, byte) == Fed::Frame(line),
        byte == 10 && line.len() > 0 && line.last() == 13 && vstd::utf8::valid_utf8(
            line.drop_last(),
        ) ==> feed_byte(line, byte) == Fed::Frame(line.drop_last()),
        byte == 10 && (line.len() == 0 || line.last() != 13) && !vstd::utf8::valid_utf8(line)
            ==> feed_byte(line, byte) == Fed::Failed(FrameError::InvalidUtf8),
        byte != 10 && line.len() > 0 && line.last() == 13 ==> feed_byte(line, byte) == Fed::Failed(
            FrameError::BareCarriageReturn,
        ),
        byte != 10 && (line.len() == 0 || line.last() != 13) && line.len() < 1_048_576
            ==> feed_byte(line, byte) == Fed::Kept(line.push(byte)),
        byte != 10 && byte != 13 && (line.len() == 0 || line.last() != 13) && line.len()
            == 1_048_576 ==> feed_byte(line, byte) == Fed::Failed(FrameError::FrameTooLarge),
        byte == 13 && (line.len() == 0 || line.last() != 13) && line.len() == 1_048_576
            ==> feed_byte(line, byte) == Fed::Kept(line.push(byte)),
{
}

/// A stream of lines gives one frame for each of them, in order, and keeps what
/// follows the last line feed for later.
pub proof fn streams_give_their_lines(
    payload: Seq<u8>,
    rest: Seq<u8>,
)
    requires
        payload.len() <= 1_048_576,
        !payload.contains(10),
        !payload.contains(13),
        vstd::utf8::valid_utf8(payload),
    ensures
        feed(Seq::empty(), payload.push(10) + rest).frames == seq![payload] + feed(
            Seq::empty(),
            rest,
        ).frames,
        feed(Seq::empty(), payload.push(10) + rest).rest == feed(Seq::empty(), rest).rest,
{
    terminated_payloads_are_one_frame(payload);
    feeding_does_not_depend_on_chunks(Seq::empty(), payload.push(10), rest);
}

/// A decoder that lets only documents through returns every frame as it came, or
/// fails because some frame is empty or no JSON.
pub proof fn only_documents_pass(state: CodecState, bytes: Seq<u8>, i: int)
    ensures
        documents_of(state, bytes).1 matches Ok(frames) ==> frames_of(state, bytes).1 == Ok::<
            Seq<Seq<u8>>,
            FrameError,
        >(frames) && (0 <= i < frames.len() ==> frames[i].len() > 0 && json::json_document(
            frames[i],
        ) is Some),
        frames_of(state, bytes).1 matches Ok(frames) ==> ((forall|k: int|
            0 <= k < frames.len() ==> (#[trigger] frames[k]).len() > 0 && json::json_document(
                frames[k],
            ) is Some) ==> documents_of(state, bytes).1 == Ok::<Seq<Seq<u8>>, FrameError>(frames)
            && documents_of(state, bytes).0 == frames_of(state, bytes).0),
        frames_of(state, bytes).1 matches Err(failure) ==> documents_of(state, bytes).1 == Err::<
            Seq<Seq<u8>>,
            FrameError,
        >(failure),
{
    if let Ok(frames) = frames_of(state, bytes).1 {
        lemma_first_non_json(frames);
    }
}

proof fn lemma_first_non_json(frames: Seq<Seq<u8>>)
    ensures
        first_non_json(frames) is None <==> forall|k: int|
            0 <= k < frames.len() ==> (#[trigger] frames[k]).len() > 0 && json::json_document(
                frames[k],
            ) is Some,
    decreases frames.len(),
{
    if frames.len() > 0 {
        lemma_first_non_json(frames.skip(1));
        assert forall|k: int| 0 <= k < frames.skip(1).len() implies #[trigger] frames.skip(1)[k]
            == frames[k + 1] by {}
        if first_non_json(frames) is None {
            assert forall|k: int| 0 <= k < frames.len() implies (#[trigger] frames[k]).len() > 0
                && json::json_document(frames[k]) is Some by {
                if k > 0 {
                    assert(frames.skip(1)[k - 1] == frames[k]);
                }
            }
        }
        if forall|k: int|
            0 <= k < frames.len() ==> (#[trigger] frames[k]).len() > 0 && json::json_document(
                frames[k],
            ) is Some {
            assert(frames[0].len() > 0);
        }
    }
}

/// A payload is decoded exactly if it is one JSON document of at most one
/// mebibyte, in UTF-8 and without breaks, that describes a message; the message
/// is the one that it describes.
pub proof fn payloads_are_decoded_for_what_they_are<T: WireMessage>(payload: Seq<u8>)
    requires
        json::json_document(payload) is Some ==> json::json_prefix(payload)
            == json::json_document(payload),
    ensures
        decoded::<T>(payload) is Ok <==> {
            &&& 0 < payload.len() <= 1_048_576
            &&& !payload.contains(10)
            &&& !payload.contains(13)
            &&& vstd::utf8::valid_utf8(payload)
            &&& json::json_document(payload) matches Some(value) && T::wire_read(value) is Ok
        },
        decoded::<T>(payload) matches Ok(content) ==> T::wire_read(
            json::json_document(payload)->0,
        ) == Ok::<T::V, crate::daemon::IpcModelError>(content),
        payload.len() > 1_048_576 ==> decoded::<T>(payload) == Err::<T::V, FrameError>(
            FrameError::FrameTooLarge,
        ),
        payload.len() == 0 ==> decoded::<T>(payload) == Err::<T::V, FrameError>(
            FrameError::EmptyFrame,
        ),
{
}

/// Messages are decoded frame by frame and in order, all of them or none.
pub proof fn frames_are_decoded_one_by_one<T: WireMessage>(
    first: Seq<Seq<u8>>,
    frame: Seq<u8>,
)
    ensures
        decoded_all::<T>(Seq::empty()) == Ok::<Seq<T::V>, FrameError>(Seq::empty()),
        decoded_all::<T>(first) is Err ==> decoded_all::<T>(first.push(frame)) == decoded_all::<T>(
            first,
        ),
        decoded_all::<T>(first) matches Ok(messages) ==> decoded_all::<T>(first.push(frame)) == (
        match decoded::<T>(frame) {
            Ok(message) => Ok::<Seq<T::V>, FrameError>(messages.push(message)),
            Err(failure) => Err::<Seq<T::V>, FrameError>(failure),
        }),
{
    assert(first.push(frame).drop_last() =~= first);
}

/// An encoded message is its text and one line feed, and only a message without
/// a text or with one that is too long has no encoding.
pub proof fn messages_are_encoded_as_lines<T: WireMessage>(content: T::V)
    ensures
        encoded::<T>(content) matches Ok(frame) ==> (T::wire_text(content) matches Ok(payload)
            && payload.len() <= 1_048_576 && frame == payload.push(10)),
        T::wire_text(content) matches Ok(payload) ==> (payload.len() <= 1_048_576 ==> encoded::<T>(
            content,
        ) is Ok) && (payload.len() > 1_048_576 ==> encoded::<T>(content) == Err::<
            Seq<u8>,
            FrameError,
        >(FrameError::FrameTooLarge)),
        T::wire_text(content) is Err ==> encoded::<T>(content) == Err::<Seq<u8>, FrameError>(
            FrameError::InvalidMessage,
        ),
{
}

} // verus!

//! Message frames on a byte stream.
//!
//! A frame is eight bytes that hold the payload's length, little-endian,
//! followed by the payload, which is UTF-8 text. A stream delivers bytes in
//! pieces of any size, so a receiver collects them in a [`FrameBuffer`] and
//! takes a frame out once all of it is there.

use vstd::prelude::*;
use vstd::bytes::*;
use vstd::seq_lib::lemma_flatten_concat;
use vstd::slice::*;
use vstd::string::*;
use vstd::utf8::*;

verus! {

/// The number of bytes that hold a payload's length at the start of a frame.
pub const PREFIX_LEN: usize = 8;

/// The most bytes that are taken from the stream by one read.
pub const POLL_SIZE: usize = 4096;

/// What went wrong on the stream below a channel, as far as the chat cares.
#[derive(Clone, Copy, Debug, PartialEq, Eq, Structural)]
pub enum TransportKind {
    /// Nothing can be read right now; the stream is still open.
    WouldBlock,
    /// The peer reset the connection.
    ConnectionReset,
    /// The connection was aborted.
    ConnectionAborted,
    /// An error that the platform does not classify.
    Uncategorized,
    /// Any other failure to read or write.
    Failed,
}

/// Why no message came out of a receive.
#[derive(Clone, Copy, Debug, PartialEq, Eq, Structural)]
pub enum ReceiveError {
    /// The buffer does not hold a whole frame yet. Trying again later, when
    /// more bytes have arrived, may succeed.
    Incomplete,
    /// A whole frame is there, but its payload is no text or does not decode
    /// into a message. The frame stays in the buffer until the buffer is
    /// emptied.
    Malformed,
    /// No whole frame arrived before the deadline.
    Timeout,
    /// The stream could not be read.
    Transport(TransportKind),
}

/// What goes wrong on the stream, in a word or two.
pub open spec fn transport_text(kind: TransportKind) -> Seq<char> {
    match kind {
        TransportKind::WouldBlock => "operation would block"@,
        TransportKind::ConnectionReset => "connection reset"@,
        TransportKind::ConnectionAborted => "connection aborted"@,
        TransportKind::Uncategorized => "uncategorized error"@,
        TransportKind::Failed => "other error"@,
    }
}

/// The explanation of `error` for a receive that was to give a value of the
/// type named `wanted`.
pub open spec fn error_text(error: ReceiveError, wanted: Seq<char>) -> Seq<char> {
    match error {
        ReceiveError::Incomplete => "Unable to reconstruct a value of type `"@ + wanted
            + "` due to insufficient data. This should be handled by waiting until enough bytes have arrived."@,
        ReceiveError::Malformed => "Unable to reconstruct a value of type `"@ + wanted
            + "` due to invalid type. This error indicates that all the data from the message has arrived, but it cannot be deserialized into the given type."@,
        ReceiveError::Timeout => "Unable to reconstruct a value of type `"@ + wanted
            + "`. Request timed out"@,
        ReceiveError::Transport(kind) => "Unable to reconstruct a value of type `"@ + wanted
            + "`: "@ + transport_text(kind),
    }
}

impl ReceiveError {
    /// Explains the error to a reader: see [`error_text`].
    pub fn describe(&self, wanted: &str) -> (text: String)
        ensures
            text@ == error_text(*self, wanted@),
    {
        let start = String::from_str("Unable to reconstruct a value of type `").concat(wanted);
        match self {
            ReceiveError::Incomplete => start.concat(
                "` due to insufficient data. This should be handled by waiting until enough bytes have arrived.",
            ),
            ReceiveError::Malformed => start.concat(
                "` due to invalid type. This error indicates that all the data from the message has arrived, but it cannot be deserialized into the given type.",
            ),
            ReceiveError::Timeout => start.concat("`. Request timed out"),
            ReceiveError::Transport(kind) => {
                let about = match kind {
                    TransportKind::WouldBlock => "operation would block",
                    TransportKind::ConnectionReset => "connection reset",
                    TransportKind::ConnectionAborted => "connection aborted",
                    TransportKind::Uncategorized => "uncategorized error",
                    TransportKind::Failed => "other error",
                };
                start.concat("`: ").concat(about)
            },
        }
    }
}

/// Why a message was not sent.
#[derive(Clone, Copy, Debug, PartialEq, Eq, Structural)]
pub enum SendError {
    /// The message has no encoding.
    Serialization,
    /// The stream could not be written.
    Transport(TransportKind),
}

/// The frame that carries `payload`: its length in eight little-endian
/// bytes, then the payload itself.
pub open spec fn frame(payload: Seq<u8>) -> Seq<u8> {
    spec_u64_to_le_bytes(payload.len() as u64) + payload
}

/// The payload length that the first eight bytes of `buffer` declare.
pub open spec fn declared_len(buffer: Seq<u8>) -> nat
    recommends
        buffer.len() >= PREFIX_LEN,
{
    spec_u64_from_le_bytes(buffer.subrange(0, PREFIX_LEN as int)) as nat
}

/// Whether `buffer` starts with a whole frame: the length prefix is there,
/// and so are as many payload bytes as it declares.
pub open spec fn has_frame(buffer: Seq<u8>) -> bool {
    buffer.len() >= PREFIX_LEN && buffer.len() - PREFIX_LEN >= declared_len(buffer)
}

/// The payload of the frame that `buffer` starts with.
pub open spec fn first_payload(buffer: Seq<u8>) -> Seq<u8>
    recommends
        has_frame(buffer),
{
    buffer.subrange(PREFIX_LEN as int, PREFIX_LEN + declared_len(buffer))
}

/// What is left of `buffer` once its first frame is taken out.
pub open spec fn after_first(buffer: Seq<u8>) -> Seq<u8>
    recommends
        has_frame(buffer),
{
    buffer.subrange(PREFIX_LEN + declared_len(buffer), buffer.len() as int)
}

/// Builds the frame that carries `payload`.
pub fn encode_frame(payload: &str) -> (out: Vec<u8>)
    ensures
        out@ == frame(payload.spec_bytes()),
{
    let bytes = payload.as_bytes();
    let mut out = u64_to_le_bytes(bytes.len() as u64);
    let ghost prefix = out@;
    out.extend_from_slice(bytes);
    assert(out@ =~= prefix + bytes@);
    out
}

/// What a receive does after one read from the stream.
#[derive(Clone, Copy, Debug, PartialEq, Eq, Structural)]
pub enum ReadStep {
    /// The read filled its buffer, so more may be ready: read again.
    Again,
    /// The stream has nothing more ready: look at what has arrived.
    Parse,
    /// The stream failed: give up with this error.
    Fail(ReceiveError),
}

/// Decides how a receive goes on after one read that was given a buffer of
/// [`POLL_SIZE`] bytes. `outcome` is the number of bytes that the read
/// filled, or the way in which it failed.
///
/// A read that fills the whole buffer is followed by another. A shorter read
/// shows that the stream is dry for now, and so does a stream that would
/// block: neither is a failure. Any other failure ends the receive.
pub fn after_read(outcome: Result<usize, TransportKind>) -> (step: ReadStep)
    ensures
        step == match outcome {
            Ok(bytes_read) => if bytes_read < POLL_SIZE {
                ReadStep::Parse
            } else {
                ReadStep::Again
            },
            Err(TransportKind::WouldBlock) => ReadStep::Parse,
            Err(kind) => ReadStep::Fail(ReceiveError::Transport(kind)),
        },
{
    match outcome {
        Ok(bytes_read) => {
            if bytes_read < POLL_SIZE {
                ReadStep::Parse
            } else {
                ReadStep::Again
            }
        },
        Err(TransportKind::WouldBlock) => ReadStep::Parse,
        Err(kind) => ReadStep::Fail(ReceiveError::Transport(kind)),
    }
}

/// The bytes that have arrived on one connection and belong to no message
/// taken out so far.
pub struct FrameBuffer {
    bytes: Vec<u8>,
}

impl View for FrameBuffer {
    type V = Seq<u8>;

    closed spec fn view(&self) -> Seq<u8> {
        self.bytes@
    }
}

impl FrameBuffer {
    /// An empty buffer.
    pub fn new() -> (buffer: FrameBuffer)
        ensures
            buffer@ == Seq::<u8>::empty(),
    {
        FrameBuffer { bytes: Vec::new() }
    }

    /// The number of bytes held.
    pub fn len(&self) -> (n: usize)
        ensures
            n == self@.len(),
    {
        self.bytes.len()
    }

    /// The bytes held, oldest first.
    pub fn bytes(&self) -> (bytes: &Vec<u8>)
        ensures
            bytes@ == self@,
    {
        &self.bytes
    }

    /// Appends bytes that were read from the stream.
    pub fn absorb(&mut self, chunk: &[u8])
        ensures
            final(self)@ == old(self)@ + chunk@,
    {
        let ghost before = self.bytes@;
        self.bytes.extend_from_slice(chunk);
        assert(self.bytes@ =~= before + chunk@);
    }

    /// Throws away everything held. After a [`ReceiveError::Malformed`] this
    /// is the way to get rid of the frame that does not decode.
    pub fn empty_buffer(&mut self)
        ensures
            final(self)@ == Seq::<u8>::empty(),
    {
        self.bytes.clear();
    }

    /// The text of the first frame's payload, if a whole frame is held and
    /// its payload is valid UTF-8. The buffer is left as it is.
    pub fn payload_text(&self) -> (result: Result<&str, ReceiveError>)
        ensures
            !has_frame(self@) ==> result == Err::<&str, ReceiveError>(ReceiveError::Incomplete),
            has_frame(self@) && !valid_utf8(first_payload(self@)) ==> result == Err::<
                &str,
                ReceiveError,
            >(ReceiveError::Malformed),
            has_frame(self@) && valid_utf8(first_payload(self@)) ==> result is Ok
                && result->Ok_0@ == decode_utf8(first_payload(self@)),
    {
        let held = self.bytes.len();
        if held < PREFIX_LEN {
            return Err(ReceiveError::Incomplete);
        }
        let all = self.bytes.as_slice();
        let declared = u64_from_le_bytes(slice_subrange(all, 0, PREFIX_LEN));
        if ((held - PREFIX_LEN) as u64) < declared {
            return Err(ReceiveError::Incomplete);
        }
        let end = PREFIX_LEN + declared as usize;
        match text_of(slice_subrange(all, PREFIX_LEN, end)) {
            Some(text) => {
                proof {
                    encode_utf8_decode_utf8(text@);
                }
                Ok(text)
            },
            None => Err(ReceiveError::Malformed),
        }
    }

    /// Finishes a receive once the payload has been handed to a decoder.
    /// `decoded` is what the decoder made of the first frame's payload:
    /// `None` if the payload is no text or no message.
    ///
    /// With a message, the frame leaves the buffer and the message is
    /// returned. Without one, the frame stays where it is.
    pub fn settle<T>(&mut self, decoded: Option<T>) -> (result: Result<T, ReceiveError>)
        ensures
            !has_frame(old(self)@) ==> result == Err::<T, ReceiveError>(ReceiveError::Incomplete)
                && final(self)@ == old(self)@,
            has_frame(old(self)@) && decoded is None ==> result == Err::<T, ReceiveError>(
                ReceiveError::Malformed,
            ) && final(self)@ == old(self)@,
            has_frame(old(self)@) && decoded is Some ==> result == Ok::<T, ReceiveError>(
                decoded->Some_0,
            ) && final(self)@ == after_first(old(self)@),
    {
        let held = self.bytes.len();
        if held < PREFIX_LEN {
            return Err(ReceiveError::Incomplete);
        }
        let declared = u64_from_le_bytes(slice_subrange(self.bytes.as_slice(), 0, PREFIX_LEN));
        if ((held - PREFIX_LEN) as u64) < declared {
            return Err(ReceiveError::Incomplete);
        }
        match decoded {
            Some(message) => {
                let rest = self.bytes.split_off(PREFIX_LEN + declared as usize);
                self.bytes = rest;
                Ok(message)
            },
            None => Err(ReceiveError::Malformed),
        }
    }

    /// Takes the next message out of the buffer, if a whole frame is held.
    /// `decode` turns the payload's text into a message, or into `None` if
    /// the text is no message.
    ///
    /// Without a whole frame the result is [`ReceiveError::Incomplete`].
    /// With a whole frame whose payload is not valid UTF-8, or whose text
    /// `decode` refuses, it is [`ReceiveError::Malformed`]. In both cases the
    /// buffer is left as it is. Otherwise the frame leaves the buffer, and
    /// what follows it stays.
    pub fn receive_partial<T, F: FnOnce(&str) -> Option<T>>(&mut self, decode: F) -> (result:
        Result<T, ReceiveError>)
        requires
            forall|text: &str| call_requires(decode, (text,)),
        ensures
            !has_frame(old(self)@) ==> result == Err::<T, ReceiveError>(ReceiveError::Incomplete)
                && final(self)@ == old(self)@,
            has_frame(old(self)@) && !valid_utf8(first_payload(old(self)@)) ==> result == Err::<
                T,
                ReceiveError,
            >(ReceiveError::Malformed) && final(self)@ == old(self)@,
            has_frame(old(self)@) && valid_utf8(first_payload(old(self)@)) ==> exists|text: &str|
                {
                    &&& #[trigger] text@ == decode_utf8(first_payload(old(self)@))
                    &&& match result {
                        Ok(message) => call_ensures(decode, (text,), Some(message))
                            && final(self)@ == after_first(old(self)@),
                        Err(e) => e == ReceiveError::Malformed && call_ensures(
                            decode,
                            (text,),
                            None::<T>,
                        ) && final(self)@ == old(self)@,
                    }
                },
    {
        let decoded = match self.payload_text() {
            Ok(text) => decode(text),
            Err(e) => {
                return Err(e);
            },
        };
        self.settle(decoded)
    }
}

/// `std::str::from_utf8`: the bytes as text, if they are valid UTF-8, and
/// nothing if they are not. The text has exactly the given bytes.
#[verifier::external_body]
fn text_of(bytes: &[u8]) -> (text: Option<&str>)
    ensures
        text is Some <==> valid_utf8(bytes@),
        text is Some ==> text->Some_0.spec_bytes() == bytes@,
{
    match std::str::from_utf8(bytes) {
        Ok(text) => Some(text),
        Err(_) => None,
    }
}

/// Wraps the encoding of a message into a frame, ready to be written to the
/// stream. `encoded` is the message as text, or `None` if it has no encoding.
pub fn outgoing_frame(encoded: Option<&str>) -> (result: Result<Vec<u8>, SendError>)
    ensures
        match encoded {
            Some(text) => result is Ok && result->Ok_0@ == frame(text.spec_bytes()),
            None => result == Err::<Vec<u8>, SendError>(SendError::Serialization),
        },
{
    match encoded {
        Some(text) => Ok(encode_frame(text)),
        None => Err(SendError::Serialization),
    }
}

/// Milliseconds between two attempts of a receive that waits.
pub const WAIT_DELAY_MS: u64 = 100;

/// Milliseconds that a receive waits for a whole message, unless it is told
/// otherwise.
pub const RECEIVE_DEFAULT_TIMEOUT_MS: u64 = 10_000;

/// What a receive that waits does after one attempt.
#[derive(Debug, PartialEq, Eq)]
pub enum FullStep<T> {
    /// Hand out the message.
    Deliver(T),
    /// Give up with this error.
    Fail(ReceiveError),
    /// Sleep for [`WAIT_DELAY_MS`] and try again.
    Wait,
}

/// What follows from one attempt of a receive that waits: `elapsed` is the
/// time since the receive began, `timeout` the time it may take, both in the
/// same unit.
///
/// A message ends the receive, however late it is. A frame that is not whole
/// yet means to wait, unless the time is up, which is a
/// [`ReceiveError::Timeout`]. Every other error ends the receive.
pub open spec fn full_step<T>(attempt: Result<T, ReceiveError>, elapsed: u128, timeout: u128)
    -> FullStep<T> {
    match attempt {
        Ok(message) => FullStep::Deliver(message),
        Err(ReceiveError::Incomplete) => if elapsed >= timeout {
            FullStep::Fail(ReceiveError::Timeout)
        } else {
            FullStep::Wait
        },
        Err(e) => FullStep::Fail(e),
    }
}

/// Decides how a receive that waits goes on after one attempt: see
/// [`full_step`].
pub fn receive_full_step<T>(attempt: Result<T, ReceiveError>, elapsed: u128, timeout: u128) -> (step:
    FullStep<T>)
    ensures
        step == full_step(attempt, elapsed, timeout),
{
    match attempt {
        Ok(message) => FullStep::Deliver(message),
        Err(ReceiveError::Incomplete) => {
            if elapsed >= timeout {
                FullStep::Fail(ReceiveError::Timeout)
            } else {
                FullStep::Wait
            }
        },
        Err(e) => FullStep::Fail(e),
    }
}

/// How a receive that waits ends, given its attempts in order, each with the
/// time that had passed when it was made. `None` says that it is still
/// waiting after the last of them.
pub open spec fn received_full<T>(attempts: Seq<(Result<T, ReceiveError>, u128)>, timeout: u128)
    -> Option<Result<T, ReceiveError>>
    decreases attempts.len(),
{
    if attempts.len() == 0 {
        None
    } else {
        match full_step(attempts[0].0, attempts[0].1, timeout) {
            FullStep::Deliver(message) => Some(Ok(message)),
            FullStep::Fail(e) => Some(Err(e)),
            FullStep::Wait => received_full(attempts.skip(1), timeout),
        }
    }
}

/// Whether the first `count` of `attempts` all found no whole frame, before
/// the time was up.
pub open spec fn all_early<T>(
    attempts: Seq<(Result<T, ReceiveError>, u128)>,
    timeout: u128,
    count: int,
) -> bool {
    forall|i: int|
        0 <= i < count ==> (#[trigger] attempts[i]).0 == Err::<T, ReceiveError>(
            ReceiveError::Incomplete,
        ) && attempts[i].1 < timeout
}

/// A receive that waits times out exactly when it should. If the frame is
/// not whole at an attempt made when the time is up, and was not before, the
/// receive ends in a [`ReceiveError::Timeout`]. If a message is there at an
/// attempt, and no attempt before it was late, the receive hands out that
/// message: it never times out on a frame that arrived in time.
pub proof fn lemma_timeout_when_due<T>(
    attempts: Seq<(Result<T, ReceiveError>, u128)>,
    timeout: u128,
    last: int,
)
    requires
        0 <= last < attempts.len(),
        all_early(attempts, timeout, last),
    ensures
        attempts[last].0 == Err::<T, ReceiveError>(ReceiveError::Incomplete) && attempts[last].1
            >= timeout ==> received_full(attempts, timeout) == Some(
            Err::<T, ReceiveError>(ReceiveError::Timeout),
        ),
        attempts[last].0 is Ok ==> received_full(attempts, timeout) == Some(attempts[last].0),
    decreases last,
{
    if last > 0 {
        let rest = attempts.skip(1);
        assert(all_early(rest, timeout, last - 1)) by {
            assert forall|i: int| 0 <= i < last - 1 implies (#[trigger] rest[i]).0 == Err::<
                T,
                ReceiveError,
            >(ReceiveError::Incomplete) && rest[i].1 < timeout by {
                assert(rest[i] == attempts[i + 1]);
            }
        }
        assert(rest[last - 1] == attempts[last]);
        assert(attempts[0].0 == Err::<T, ReceiveError>(ReceiveError::Incomplete));
        lemma_timeout_when_due(rest, timeout, last - 1);
    }
}

/// A receive that waits times out only when it should: if it ends in a
/// [`ReceiveError::Timeout`] that none of its attempts brought along, then
/// at some attempt the time was up and the frame was not whole, and at no
/// attempt before it was a message there.
pub proof fn lemma_timeout_only_when_due<T>(
    attempts: Seq<(Result<T, ReceiveError>, u128)>,
    timeout: u128,
) -> (last: int)
    requires
        received_full(attempts, timeout) == Some(Err::<T, ReceiveError>(ReceiveError::Timeout)),
        forall|i: int|
            0 <= i < attempts.len() ==> (#[trigger] attempts[i]).0 != Err::<T, ReceiveError>(
                ReceiveError::Timeout,
            ),
    ensures
        0 <= last < attempts.len(),
        all_early(attempts, timeout, last),
        attempts[last].0 == Err::<T, ReceiveError>(ReceiveError::Incomplete),
        attempts[last].1 >= timeout,
    decreases attempts.len(),
{
    match full_step(attempts[0].0, attempts[0].1, timeout) {
        FullStep::Wait => {
            let rest = attempts.skip(1);
            assert forall|i: int| 0 <= i < rest.len() implies (#[trigger] rest[i]).0 != Err::<
                T,
                ReceiveError,
            >(ReceiveError::Timeout) by {
                assert(rest[i] == attempts[i + 1]);
            }
            let found = lemma_timeout_only_when_due(rest, timeout);
            assert(rest[found] == attempts[found + 1]);
            assert forall|i: int| 0 <= i < found + 1 implies (#[trigger] attempts[i]).0 == Err::<
                T,
                ReceiveError,
            >(ReceiveError::Incomplete) && attempts[i].1 < timeout by {
                if i > 0 {
                    assert(rest[i - 1] == attempts[i]);
                }
            }
            found + 1
        },
        _ => 0,
    }
}

/// The length prefix is read as a number in base 256 whose lowest digit
/// comes first.
pub proof fn lemma_declared_len_is_little_endian(buffer: Seq<u8>)
    requires
        buffer.len() >= PREFIX_LEN,
    ensures
        declared_len(buffer) == buffer[0] + buffer[1] * 0x100 + buffer[2] * 0x1_0000 + buffer[3]
            * 0x100_0000 + buffer[4] * 0x1_0000_0000 + buffer[5] * 0x100_0000_0000 + buffer[6]
            * 0x1_0000_0000_0000 + buffer[7] * 0x100_0000_0000_0000,
{
    lemma_auto_spec_u64_to_from_le_bytes();
    let prefix = buffer.subrange(0, PREFIX_LEN as int);
    let x = spec_u64_from_le_bytes(prefix);
    spec_u64_to_le_bytes_to_open(x);
    let digits = spec_u64_to_le_bytes_open(x);
    assert(digits == prefix);
    assert(forall|i: int| 0 <= i < 8 ==> digits[i] == buffer[i]);
    let b0 = (x & 0xff) as u8;
    let b1 = ((x >> 8) & 0xff) as u8;
    let b2 = ((x >> 16) & 0xff) as u8;
    let b3 = ((x >> 24) & 0xff) as u8;
    let b4 = ((x >> 32) & 0xff) as u8;
    let b5 = ((x >> 40) & 0xff) as u8;
    let b6 = ((x >> 48) & 0xff) as u8;
    let b7 = ((x >> 56) & 0xff) as u8;
    assert(digits[0] == b0 && digits[1] == b1 && digits[2] == b2 && digits[3] == b3 && digits[4]
        == b4 && digits[5] == b5 && digits[6] == b6 && digits[7] == b7);
    assert(x == (x & 0xff) + ((x >> 8) & 0xff) * 0x100 + ((x >> 16) & 0xff) * 0x1_0000 + ((x >> 24)
        & 0xff) * 0x100_0000 + ((x >> 32) & 0xff) * 0x1_0000_0000 + ((x >> 40) & 0xff)
        * 0x100_0000_0000 + ((x >> 48) & 0xff) * 0x1_0000_0000_0000 + ((x >> 56) & 0xff)
        * 0x100_0000_0000_0000) by (bit_vector);
    assert((x & 0xff) < 256 && ((x >> 8) & 0xff) < 256 && ((x >> 16) & 0xff) < 256 && ((x >> 24)
        & 0xff) < 256 && ((x >> 32) & 0xff) < 256 && ((x >> 40) & 0xff) < 256 && ((x >> 48)
        & 0xff) < 256 && ((x >> 56) & 0xff) < 256) by (bit_vector);
}

/// A buffer that starts with the frame of `payload` holds a whole frame: its
/// payload is `payload`, and what follows the frame is left over untouched.
pub proof fn lemma_frame_then_rest(payload: Seq<u8>, rest: Seq<u8>)
    requires
        payload.len() <= u64::MAX,
    ensures
        has_frame(frame(payload) + rest),
        first_payload(frame(payload) + rest) == payload,
        after_first(frame(payload) + rest) == rest,
{
    lemma_auto_spec_u64_to_from_le_bytes();
    let prefix = spec_u64_to_le_bytes(payload.len() as u64);
    let buffer = frame(payload) + rest;
    assert(buffer.subrange(0, PREFIX_LEN as int) =~= prefix);
    assert(first_payload(buffer) =~= payload);
    assert(after_first(buffer) =~= rest);
}

/// No part of a frame that is shorter than the frame counts as a whole
/// frame.
pub proof fn lemma_partial_frame_is_incomplete(payload: Seq<u8>, held: int)
    requires
        payload.len() <= u64::MAX,
        0 <= held < frame(payload).len(),
    ensures
        !has_frame(frame(payload).take(held)),
{
    lemma_auto_spec_u64_to_from_le_bytes();
    let prefix = spec_u64_to_le_bytes(payload.len() as u64);
    let part = frame(payload).take(held);
    if held >= PREFIX_LEN {
        assert(part.subrange(0, PREFIX_LEN as int) =~= prefix);
    }
}

/// Text that is framed and received comes out as it went in: a buffer that
/// starts with the frame of `text` holds a whole frame whose payload is valid
/// UTF-8 and decodes to `text`.
pub proof fn lemma_framed_text_round_trip(text: Seq<char>, rest: Seq<u8>)
    requires
        encode_utf8(text).len() <= u64::MAX,
    ensures
        has_frame(frame(encode_utf8(text)) + rest),
        valid_utf8(first_payload(frame(encode_utf8(text)) + rest)),
        decode_utf8(first_payload(frame(encode_utf8(text)) + rest)) == text,
        after_first(frame(encode_utf8(text)) + rest) == rest,
{
    lemma_frame_then_rest(encode_utf8(text), rest);
    encode_utf8_valid_utf8(text);
    encode_utf8_decode_utf8(text);
}

/// A frame may arrive in pieces of any size. However a stream that starts
/// with the frame of `payload` is cut into `chunks`, the buffer that has
/// absorbed the first `arrived` of them holds a whole frame if and only if
/// all bytes of the frame are among them. The frame's payload is then
/// `payload`, and taking the frame out leaves exactly the bytes that arrived
/// behind it.
pub proof fn lemma_chunked_arrival(
    payload: Seq<u8>,
    following: Seq<u8>,
    chunks: Seq<Seq<u8>>,
    arrived: int,
)
    requires
        payload.len() <= u64::MAX,
        chunks.flatten() == frame(payload) + following,
        0 <= arrived <= chunks.len(),
    ensures
        has_frame(chunks.take(arrived).flatten()) <==> chunks.take(arrived).flatten().len()
            >= frame(payload).len(),
        has_frame(chunks.take(arrived).flatten()) ==> {
            &&& first_payload(chunks.take(arrived).flatten()) == payload
            &&& frame(payload) + after_first(chunks.take(arrived).flatten()) == chunks.take(
                arrived,
            ).flatten()
        },
{
    let stream = frame(payload) + following;
    let held = chunks.take(arrived).flatten();
    let later = chunks.skip(arrived).flatten();
    assert(chunks =~= chunks.take(arrived) + chunks.skip(arrived));
    lemma_flatten_concat(chunks.take(arrived), chunks.skip(arrived));
    assert(stream == held + later);
    let whole = frame(payload).len() as int;
    if held.len() >= whole {
        let behind = held.skip(whole);
        assert(held =~= frame(payload) + behind) by {
            assert forall|i: int| 0 <= i < held.len() implies held[i] == (frame(payload)
                + behind)[i] by {
                assert(held[i] == stream[i]);
            }
        }
        lemma_frame_then_rest(payload, behind);
    } else {
        assert(held =~= frame(payload).take(held.len() as int)) by {
            assert forall|i: int| 0 <= i < held.len() implies held[i] == frame(payload)[i] by {
                assert(held[i] == stream[i]);
            }
        }
        lemma_partial_frame_is_incomplete(payload, held.len() as int);
    }
}

/// A frame that does not decode poisons nothing behind it: once the buffer
/// has been emptied, whatever it held, a frame that is absorbed next is whole
/// and has its own payload.
pub proof fn lemma_frame_after_reset(payload: Seq<u8>)
    requires
        payload.len() <= u64::MAX,
    ensures
        has_frame(Seq::<u8>::empty() + frame(payload)),
        first_payload(Seq::<u8>::empty() + frame(payload)) == payload,
        after_first(Seq::<u8>::empty() + frame(payload)) == Seq::<u8>::empty(),
{
    lemma_frame_then_rest(payload, Seq::<u8>::empty());
    assert(Seq::<u8>::empty() + frame(payload) =~= frame(payload) + Seq::<u8>::empty());
}

} // verus!

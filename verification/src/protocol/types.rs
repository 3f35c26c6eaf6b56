//! Message types, header flags and the records that travel between peers.

use vstd::prelude::*;

use crate::text::{push_upper_hex, upper_hex};

verus! {

pub const MAGIC: u16 = 0x4D4C;

pub const PROTOCOL_VERSION: u8 = 0x01;

pub const HEADER_SIZE: usize = 8;

const FLAG_COMPRESSED: u8 = 0b1000_0000;

const FLAG_ENCRYPTED: u8 = 0b0100_0000;

const TYPE_MASK: u8 = 0b0011_1111;

const TYPE_ERROR_ON_WIRE: u8 = 0x3F;

/// What a frame carries.
#[derive(Debug, Clone, Copy, PartialEq, Eq, Structural)]
pub enum MessageType {
    Handshake,
    Heartbeat,
    Ack,
    Ctrl,
    Message,
    StreamStart,
    StreamChunk,
    StreamEnd,
    StreamAck,
    Request,
    Response,
    ResponseStream,
    Subscribe,
    Publish,
    Unsubscribe,
    Error,
}

/// A byte that is no message type, or no error code.
#[derive(Debug, Clone, Copy, PartialEq, Eq, Structural)]
pub struct InvalidMessageType(pub u8);

impl InvalidMessageType {
    /// The error as text, for people.
    pub fn to_string(&self) -> (s: String)
        ensures
            s@ == "invalid message type: 0x"@ + upper_hex(self.0 as nat, 2),
    {
        let mut s = "invalid message type: 0x".to_owned();
        push_upper_hex(&mut s, self.0 as u32, 2);
        s
    }
}

/// The byte of each message type.
pub open spec fn type_code(t: MessageType) -> u8 {
    match t {
        MessageType::Handshake => 0x01,
        MessageType::Heartbeat => 0x02,
        MessageType::Ack => 0x03,
        MessageType::Ctrl => 0x04,
        MessageType::Message => 0x10,
        MessageType::StreamStart => 0x11,
        MessageType::StreamChunk => 0x12,
        MessageType::StreamEnd => 0x13,
        MessageType::StreamAck => 0x14,
        MessageType::Request => 0x20,
        MessageType::Response => 0x21,
        MessageType::ResponseStream => 0x22,
        MessageType::Subscribe => 0x30,
        MessageType::Publish => 0x31,
        MessageType::Unsubscribe => 0x32,
        MessageType::Error => 0xFF,
    }
}

/// The message type that has `code` as its byte.
pub open spec fn type_of_code(code: u8) -> std::result::Result<MessageType, InvalidMessageType> {
    if exists|t: MessageType| #[trigger] type_code(t) == code {
        Ok(choose|t: MessageType| #[trigger] type_code(t) == code)
    } else {
        Err(InvalidMessageType(code))
    }
}

/// Different message types have different bytes, and a type is found again by its byte.
pub proof fn message_type_code_round_trip(t: MessageType)
    ensures
        type_of_code(type_code(t)) == Ok::<MessageType, InvalidMessageType>(t),
{
}

/// The bytes that stand for the message types on the wire, and no others.
pub proof fn message_types_on_the_wire()
    ensures
        type_of_code(0x01) == Ok::<MessageType, InvalidMessageType>(MessageType::Handshake),
        type_of_code(0x02) == Ok::<MessageType, InvalidMessageType>(MessageType::Heartbeat),
        type_of_code(0x03) == Ok::<MessageType, InvalidMessageType>(MessageType::Ack),
        type_of_code(0x04) == Ok::<MessageType, InvalidMessageType>(MessageType::Ctrl),
        type_of_code(0x10) == Ok::<MessageType, InvalidMessageType>(MessageType::Message),
        type_of_code(0x11) == Ok::<MessageType, InvalidMessageType>(MessageType::StreamStart),
        type_of_code(0x12) == Ok::<MessageType, InvalidMessageType>(MessageType::StreamChunk),
        type_of_code(0x13) == Ok::<MessageType, InvalidMessageType>(MessageType::StreamEnd),
        type_of_code(0x14) == Ok::<MessageType, InvalidMessageType>(MessageType::StreamAck),
        type_of_code(0x20) == Ok::<MessageType, InvalidMessageType>(MessageType::Request),
        type_of_code(0x21) == Ok::<MessageType, InvalidMessageType>(MessageType::Response),
        type_of_code(0x22) == Ok::<MessageType, InvalidMessageType>(MessageType::ResponseStream),
        type_of_code(0x30) == Ok::<MessageType, InvalidMessageType>(MessageType::Subscribe),
        type_of_code(0x31) == Ok::<MessageType, InvalidMessageType>(MessageType::Publish),
        type_of_code(0x32) == Ok::<MessageType, InvalidMessageType>(MessageType::Unsubscribe),
        type_of_code(0xFF) == Ok::<MessageType, InvalidMessageType>(MessageType::Error),
        forall|code: u8|
            #[trigger] type_of_code(code) is Ok ==> 1 <= code <= 4 || 0x10 <= code <= 0x14 || 0x20
                <= code <= 0x22 || 0x30 <= code <= 0x32 || code == 0xFF,
        forall|code: u8|
            #[trigger] type_of_code(code) matches Err(e) ==> e == InvalidMessageType(code),
{
    message_type_code_round_trip(MessageType::Handshake);
    message_type_code_round_trip(MessageType::Heartbeat);
    message_type_code_round_trip(MessageType::Ack);
    message_type_code_round_trip(MessageType::Ctrl);
    message_type_code_round_trip(MessageType::Message);
    message_type_code_round_trip(MessageType::StreamStart);
    message_type_code_round_trip(MessageType::StreamChunk);
    message_type_code_round_trip(MessageType::StreamEnd);
    message_type_code_round_trip(MessageType::StreamAck);
    message_type_code_round_trip(MessageType::Request);
    message_type_code_round_trip(MessageType::Response);
    message_type_code_round_trip(MessageType::ResponseStream);
    message_type_code_round_trip(MessageType::Subscribe);
    message_type_code_round_trip(MessageType::Publish);
    message_type_code_round_trip(MessageType::Unsubscribe);
    message_type_code_round_trip(MessageType::Error);
}

impl TryFrom<u8> for MessageType {
    type Error = InvalidMessageType;

    fn try_from(value: u8) -> (r: std::result::Result<Self, InvalidMessageType>) {
        let t = match value {
            0x01 => MessageType::Handshake,
            0x02 => MessageType::Heartbeat,
            0x03 => MessageType::Ack,
            0x04 => MessageType::Ctrl,
            0x10 => MessageType::Message,
            0x11 => MessageType::StreamStart,
            0x12 => MessageType::StreamChunk,
            0x13 => MessageType::StreamEnd,
            0x14 => MessageType::StreamAck,
            0x20 => MessageType::Request,
            0x21 => MessageType::Response,
            0x22 => MessageType::ResponseStream,
            0x30 => MessageType::Subscribe,
            0x31 => MessageType::Publish,
            0x32 => MessageType::Unsubscribe,
            0xFF => MessageType::Error,
            other => {
                return Err(InvalidMessageType(other));
            },
        };
        proof {
            message_type_code_round_trip(t);
        }
        Ok(t)
    }
}

impl vstd::std_specs::convert::TryFromSpecImpl<u8> for MessageType {
    open spec fn obeys_try_from_spec() -> bool {
        true
    }

    open spec fn try_from_spec(value: u8) -> std::result::Result<Self, InvalidMessageType> {
        type_of_code(value)
    }
}

impl From<MessageType> for u8 {
    fn from(t: MessageType) -> (r: u8) {
        match t {
            MessageType::Handshake => 0x01,
            MessageType::Heartbeat => 0x02,
            MessageType::Ack => 0x03,
            MessageType::Ctrl => 0x04,
            MessageType::Message => 0x10,
            MessageType::StreamStart => 0x11,
            MessageType::StreamChunk => 0x12,
            MessageType::StreamEnd => 0x13,
            MessageType::StreamAck => 0x14,
            MessageType::Request => 0x20,
            MessageType::Response => 0x21,
            MessageType::ResponseStream => 0x22,
            MessageType::Subscribe => 0x30,
            MessageType::Publish => 0x31,
            MessageType::Unsubscribe => 0x32,
            MessageType::Error => 0xFF,
        }
    }
}

impl vstd::std_specs::convert::FromSpecImpl<MessageType> for u8 {
    open spec fn obeys_from_spec() -> bool {
        true
    }

    open spec fn from_spec(t: MessageType) -> u8 {
        type_code(t)
    }
}

/// Bytes and types are converted by the same table in both directions.
pub proof fn conversions_follow_the_table(b: u8, t: MessageType)
    ensures
        <MessageType as vstd::std_specs::convert::TryFromSpec<u8>>::try_from_spec(b)
            == type_of_code(b),
        <u8 as vstd::std_specs::convert::FromSpec<MessageType>>::from_spec(t) == type_code(t),
        <MessageType as vstd::std_specs::convert::TryFromSpec<u8>>::obeys_try_from_spec(),
        <u8 as vstd::std_specs::convert::FromSpec<MessageType>>::obeys_from_spec(),
{
}

/// How urgently a message type is sent.
#[derive(Debug, Clone, Copy, PartialEq, Eq, Structural)]
pub enum Priority {
    P0,
    P1,
    P2,
    P3,
}

/// Control traffic is `P0`, replies and errors `P1`, ordinary messages `P2`, bulk data `P3`.
pub open spec fn priority_of(t: MessageType) -> Priority {
    match t {
        MessageType::Handshake | MessageType::Heartbeat | MessageType::Ack | MessageType::Ctrl => {
            Priority::P0
        },
        MessageType::StreamAck
        | MessageType::Request
        | MessageType::Response
        | MessageType::ResponseStream
        | MessageType::Error => Priority::P1,
        MessageType::Message
        | MessageType::StreamStart
        | MessageType::StreamEnd
        | MessageType::Subscribe
        | MessageType::Publish
        | MessageType::Unsubscribe => Priority::P2,
        MessageType::StreamChunk => Priority::P3,
    }
}

/// What keeps a connection alive goes before what answers somebody, that before what starts
/// something, and the bulk of a stream comes last.
pub proof fn bulk_data_comes_last(t: MessageType)
    ensures
        priority_of(t) is P0 <==> type_code(t) < 0x10,
        priority_of(t) is P1 <==> t is StreamAck || 0x20 <= type_code(t) < 0x30 || t is Error,
        priority_of(t) is P2 <==> t is Message || t is StreamStart || t is StreamEnd || 0x30
            <= type_code(t) < 0x40,
        priority_of(t) is P3 <==> t is StreamChunk,
{
}

/// What the message types are called.
pub proof fn names_of_the_message_types()
    ensures
        message_name(MessageType::Handshake) == "Handshake"@,
        message_name(MessageType::Heartbeat) == "Heartbeat"@,
        message_name(MessageType::Ack) == "Ack"@,
        message_name(MessageType::Ctrl) == "Ctrl"@,
        message_name(MessageType::Message) == "Message"@,
        message_name(MessageType::StreamStart) == "StreamStart"@,
        message_name(MessageType::StreamChunk) == "StreamChunk"@,
        message_name(MessageType::StreamEnd) == "StreamEnd"@,
        message_name(MessageType::StreamAck) == "StreamAck"@,
        message_name(MessageType::Request) == "Request"@,
        message_name(MessageType::Response) == "Response"@,
        message_name(MessageType::ResponseStream) == "ResponseStream"@,
        message_name(MessageType::Subscribe) == "Subscribe"@,
        message_name(MessageType::Publish) == "Publish"@,
        message_name(MessageType::Unsubscribe) == "Unsubscribe"@,
        message_name(MessageType::Error) == "Error"@,
{
}

/// The name of a message type, as `Debug` writes it.
pub open spec fn message_name(t: MessageType) -> Seq<char> {
    match t {
        MessageType::Handshake => "Handshake"@,
        MessageType::Heartbeat => "Heartbeat"@,
        MessageType::Ack => "Ack"@,
        MessageType::Ctrl => "Ctrl"@,
        MessageType::Message => "Message"@,
        MessageType::StreamStart => "StreamStart"@,
        MessageType::StreamChunk => "StreamChunk"@,
        MessageType::StreamEnd => "StreamEnd"@,
        MessageType::StreamAck => "StreamAck"@,
        MessageType::Request => "Request"@,
        MessageType::Response => "Response"@,
        MessageType::ResponseStream => "ResponseStream"@,
        MessageType::Subscribe => "Subscribe"@,
        MessageType::Publish => "Publish"@,
        MessageType::Unsubscribe => "Unsubscribe"@,
        MessageType::Error => "Error"@,
    }
}

impl MessageType {
    /// How urgently this type is sent.
    pub fn priority(self) -> (r: Priority)
        ensures
            r == priority_of(self),
    {
        match self {
            MessageType::Handshake
            | MessageType::Heartbeat
            | MessageType::Ack
            | MessageType::Ctrl => Priority::P0,
            MessageType::StreamAck
            | MessageType::Request
            | MessageType::Response
            | MessageType::ResponseStream
            | MessageType::Error => Priority::P1,
            MessageType::Message
            | MessageType::StreamStart
            | MessageType::StreamEnd
            | MessageType::Subscribe
            | MessageType::Publish
            | MessageType::Unsubscribe => Priority::P2,
            MessageType::StreamChunk => Priority::P3,
        }
    }

    /// The name of this type.
    pub fn name(self) -> (r: &'static str)
        ensures
            r@ == message_name(self),
    {
        match self {
            MessageType::Handshake => "Handshake",
            MessageType::Heartbeat => "Heartbeat",
            MessageType::Ack => "Ack",
            MessageType::Ctrl => "Ctrl",
            MessageType::Message => "Message",
            MessageType::StreamStart => "StreamStart",
            MessageType::StreamChunk => "StreamChunk",
            MessageType::StreamEnd => "StreamEnd",
            MessageType::StreamAck => "StreamAck",
            MessageType::Request => "Request",
            MessageType::Response => "Response",
            MessageType::ResponseStream => "ResponseStream",
            MessageType::Subscribe => "Subscribe",
            MessageType::Publish => "Publish",
            MessageType::Unsubscribe => "Unsubscribe",
            MessageType::Error => "Error",
        }
    }
}

/// The six bits that stand for a message type in the header flags.
pub open spec fn type_bits(t: MessageType) -> nat {
    if t is Error {
        0x3F
    } else {
        type_code(t) as nat
    }
}

/// The message type that six bits stand for; bits that no type has mean `Error`.
pub open spec fn type_of_bits(bits: nat) -> MessageType {
    if exists|t: MessageType| #[trigger] type_bits(t) == bits {
        choose|t: MessageType| #[trigger] type_bits(t) == bits
    } else {
        MessageType::Error
    }
}

/// The flags byte: bit 7 says compressed, bit 6 says encrypted, the rest is the type.
pub open spec fn flags_value(compressed: bool, encrypted: bool, t: MessageType) -> nat {
    (if compressed { 128nat } else { 0 }) + (if encrypted { 64nat } else { 0 }) + type_bits(t)
}

/// What a flags byte says.
pub open spec fn flags_parts(flags: u8) -> (bool, bool, MessageType) {
    (flags >= 128, flags % 128 >= 64, type_of_bits((flags % 64) as nat))
}

/// Six type bits give the type back.
pub proof fn lemma_type_of_bits(t: MessageType)
    ensures
        type_of_bits(type_bits(t)) == t,
        type_bits(t) < 64,
{
    assert forall|u: MessageType| #[trigger] type_bits(u) == type_bits(t) implies u == t by {}
}

/// Reading flags gives back exactly what was written, for every type and both marks.
pub proof fn flags_round_trip(compressed: bool, encrypted: bool, t: MessageType)
    ensures
        flags_value(compressed, encrypted, t) < 256,
        flags_parts(flags_value(compressed, encrypted, t) as u8) == (compressed, encrypted, t),
{
    lemma_type_of_bits(t);
}

/// The highest bit of the flags says compressed, the next one encrypted, and the six others are
/// those of the type's byte; bits that no type has mean an error.
pub proof fn marks_are_the_two_high_bits(flags: u8, compressed: bool, encrypted: bool, t: MessageType)
    ensures
        flags_parts(flags).0 <==> flags & 0x80 == 0x80,
        flags_parts(flags).1 <==> flags & 0x40 == 0x40,
        flags_parts(flags).2 == match type_of_code(flags & 0x3F) {
            Ok(u) => u,
            Err(_) => MessageType::Error,
        },
        flags_value(compressed, encrypted, t) % 64 == type_code(t) % 64,
        flags_value(compressed, encrypted, t) / 128 == if compressed {
            1nat
        } else {
            0nat
        },
        flags_value(compressed, encrypted, t) / 64 % 2 == if encrypted {
            1nat
        } else {
            0nat
        },
{
    lemma_type_of_bits(t);
    assert(flags & 0x80 == 0x80 <==> flags >= 128) by (bit_vector);
    assert(flags & 0x40 == 0x40 <==> flags % 128 >= 64) by (bit_vector);
    assert(flags & 0x3F == flags % 64) by (bit_vector);
    let bits = (flags % 64) as nat;
    if exists|u: MessageType| #[trigger] type_code(u) == flags & 0x3F {
        let u = choose|u: MessageType| #[trigger] type_code(u) == flags & 0x3F;
        message_type_code_round_trip(u);
        lemma_type_of_bits(u);
        assert(type_bits(u) == bits);
    } else if exists|u: MessageType| #[trigger] type_bits(u) == bits {
        let u = choose|u: MessageType| #[trigger] type_bits(u) == bits;
        lemma_type_of_bits(u);
        assert(!(u is Error) ==> type_code(u) == flags & 0x3F);
    }
}

/// Packs the two marks and the message type into the flags byte.
pub fn encode_flags(compressed: bool, encrypted: bool, msg_type: MessageType) -> (flags: u8)
    ensures
        flags == flags_value(compressed, encrypted, msg_type),
        flags_parts(flags) == (compressed, encrypted, msg_type),
{
    let code: u8 = u8::from(msg_type);
    let bits: u8 = match msg_type {
        MessageType::Error => TYPE_ERROR_ON_WIRE,
        _ => code & TYPE_MASK,
    };
    let mut flags: u8 = bits;
    if compressed {
        flags = flags | FLAG_COMPRESSED;
    }
    if encrypted {
        flags = flags | FLAG_ENCRYPTED;
    }
    proof {
        flags_round_trip(compressed, encrypted, msg_type);
        assert(code < 64 ==> code & 0b0011_1111 == code) by (bit_vector);
        assert(bits < 64 ==> bits | 0b1000_0000 == bits + 128 && bits | 0b0100_0000 == bits + 64 && (
        bits | 0b1000_0000) | 0b0100_0000 == bits + 192) by (bit_vector);
    }
    flags
}

/// Unpacks a flags byte: whether the payload is compressed, whether it is encrypted, its type.
pub fn decode_flags(flags: u8) -> (r: (bool, bool, MessageType))
    ensures
        r == flags_parts(flags),
{
    let compressed = flags & FLAG_COMPRESSED != 0;
    let encrypted = flags & FLAG_ENCRYPTED != 0;
    let bits: u8 = flags & TYPE_MASK;
    proof {
        assert(flags & 0b1000_0000 != 0 <==> flags >= 128) by (bit_vector);
        assert(flags & 0b0100_0000 != 0 <==> flags % 128 >= 64) by (bit_vector);
        assert(flags & 0b0011_1111 == flags % 64) by (bit_vector);
    }
    let msg_type = if bits == TYPE_ERROR_ON_WIRE {
        proof {
            lemma_type_of_bits(MessageType::Error);
        }
        MessageType::Error
    } else {
        match MessageType::try_from(bits) {
            Ok(t) => {
                proof {
                    lemma_type_of_bits(t);
                    assert(type_bits(t) == bits);
                }
                t
            },
            Err(_) => {
                proof {
                    assert forall|t: MessageType| #[trigger] type_bits(t) != bits by {
                        assert(type_code(t) != bits);
                    }
                }
                MessageType::Error
            },
        }
    };
    (compressed, encrypted, msg_type)
}

/// A flow control order.
#[derive(Debug, Clone, PartialEq, Eq, Structural)]
pub enum CtrlCommand {
    Pause,
    Resume,
    MtuUpdate(u16),
}

/// The error codes of the wire protocol.
#[derive(Debug, Clone, Copy, PartialEq, Eq, Structural)]
pub enum ErrorCode {
    Timeout,
    PeerGone,
    HandlerError,
    PayloadTooLarge,
    UnknownMethod,
    StreamFailed,
    Backpressure,
}

/// The byte of each error code.
pub open spec fn error_code_byte(c: ErrorCode) -> u8 {
    match c {
        ErrorCode::Timeout => 0x01,
        ErrorCode::PeerGone => 0x02,
        ErrorCode::HandlerError => 0x03,
        ErrorCode::PayloadTooLarge => 0x04,
        ErrorCode::UnknownMethod => 0x05,
        ErrorCode::StreamFailed => 0x06,
        ErrorCode::Backpressure => 0x07,
    }
}

/// The error code that has `byte` as its byte.
pub open spec fn error_code_of(byte: u8) -> std::result::Result<ErrorCode, InvalidMessageType> {
    if exists|c: ErrorCode| #[trigger] error_code_byte(c) == byte {
        Ok(choose|c: ErrorCode| #[trigger] error_code_byte(c) == byte)
    } else {
        Err(InvalidMessageType(byte))
    }
}

/// Different error codes have different bytes, and a code is found again by its byte.
pub proof fn error_code_byte_round_trip(c: ErrorCode)
    ensures
        error_code_of(error_code_byte(c)) == Ok::<ErrorCode, InvalidMessageType>(c),
{
}

/// The bytes that stand for the error codes on the wire, and no others.
pub proof fn error_codes_on_the_wire()
    ensures
        error_code_of(1) == Ok::<ErrorCode, InvalidMessageType>(ErrorCode::Timeout),
        error_code_of(2) == Ok::<ErrorCode, InvalidMessageType>(ErrorCode::PeerGone),
        error_code_of(3) == Ok::<ErrorCode, InvalidMessageType>(ErrorCode::HandlerError),
        error_code_of(4) == Ok::<ErrorCode, InvalidMessageType>(ErrorCode::PayloadTooLarge),
        error_code_of(5) == Ok::<ErrorCode, InvalidMessageType>(ErrorCode::UnknownMethod),
        error_code_of(6) == Ok::<ErrorCode, InvalidMessageType>(ErrorCode::StreamFailed),
        error_code_of(7) == Ok::<ErrorCode, InvalidMessageType>(ErrorCode::Backpressure),
        forall|b: u8| #[trigger] error_code_of(b) is Ok ==> 1 <= b <= 7,
{
    error_code_byte_round_trip(ErrorCode::Timeout);
    error_code_byte_round_trip(ErrorCode::PeerGone);
    error_code_byte_round_trip(ErrorCode::HandlerError);
    error_code_byte_round_trip(ErrorCode::PayloadTooLarge);
    error_code_byte_round_trip(ErrorCode::UnknownMethod);
    error_code_byte_round_trip(ErrorCode::StreamFailed);
    error_code_byte_round_trip(ErrorCode::Backpressure);
}

impl TryFrom<u8> for ErrorCode {
    type Error = InvalidMessageType;

    fn try_from(value: u8) -> (r: std::result::Result<Self, InvalidMessageType>) {
        let c = match value {
            0x01 => ErrorCode::Timeout,
            0x02 => ErrorCode::PeerGone,
            0x03 => ErrorCode::HandlerError,
            0x04 => ErrorCode::PayloadTooLarge,
            0x05 => ErrorCode::UnknownMethod,
            0x06 => ErrorCode::StreamFailed,
            0x07 => ErrorCode::Backpressure,
            other => {
                return Err(InvalidMessageType(other));
            },
        };
        proof {
            error_code_byte_round_trip(c);
        }
        Ok(c)
    }
}

impl vstd::std_specs::convert::TryFromSpecImpl<u8> for ErrorCode {
    open spec fn obeys_try_from_spec() -> bool {
        true
    }

    open spec fn try_from_spec(value: u8) -> std::result::Result<Self, InvalidMessageType> {
        error_code_of(value)
    }
}

impl From<ErrorCode> for u8 {
    fn from(c: ErrorCode) -> (r: u8) {
        match c {
            ErrorCode::Timeout => 0x01,
            ErrorCode::PeerGone => 0x02,
            ErrorCode::HandlerError => 0x03,
            ErrorCode::PayloadTooLarge => 0x04,
            ErrorCode::UnknownMethod => 0x05,
            ErrorCode::StreamFailed => 0x06,
            ErrorCode::Backpressure => 0x07,
        }
    }
}

impl vstd::std_specs::convert::FromSpecImpl<ErrorCode> for u8 {
    open spec fn obeys_from_spec() -> bool {
        true
    }

    open spec fn from_spec(c: ErrorCode) -> u8 {
        error_code_byte(c)
    }
}

/// One unit on the wire: an eight byte header and a payload.
#[derive(Debug, Clone, PartialEq, Eq)]
pub struct Frame {
    pub magic: u16,
    pub version: u8,
    pub flags: u8,
    pub seq: u16,
    pub length: u16,
    pub payload: Vec<u8>,
}

/// Which chunks of an interrupted stream have arrived.
#[derive(Debug, Clone, PartialEq, Eq)]
pub struct StreamResumeInfo {
    pub stream_id: u16,
    pub received_bitmap: Vec<u8>,
}

/// What each side announces when a connection opens.
#[derive(Debug, Clone, PartialEq, Eq)]
pub struct Handshake {
    pub app_uuid: String,
    pub version: u8,
    pub mtu: u16,
    pub compress: bool,
    pub encrypt: bool,
    pub last_seq: u16,
    pub resume_streams: Vec<StreamResumeInfo>,
    /// The room that this side claims to be in; `None` claims none.
    pub room_hash: Option<[u8; 8]>,
    /// The session that this connection asks to join as a further link.
    pub session_id: Option<[u8; 16]>,
    /// The last session sequence number that this side has received.
    pub session_last_seq: u32,
}

/// The announcement of a stream.
#[derive(Debug, Clone, PartialEq, Eq)]
pub struct StreamInfo {
    pub stream_id: u16,
    pub total_chunks: u32,
    pub total_size: u64,
    pub checksum_algo: String,
}

} // verus!

//! The Brew wire protocol: what a packet means and how one is written.
use crate::bytes;
use crate::bytes::{
    copy_range, find_or_len, put_bytes, put_u16le, put_u32le, put_u64le, put_zeros, u16le, u32le,
    u64le,
};
use crate::ids;
use crate::ids::{put_id, read_id, Id};
use crate::text;
use crate::text::{
    chars_of, lossy_text, push_decimal, push_text, string_of, trim_padding_chars, utf8_text,
};
use vstd::prelude::*;
use vstd::slice::slice_subrange;

verus! {

/// Protocol version that this server implements, advertised to and expected
/// from clients in the `X-Brew-Version` header.
pub const BREW_PROTOCOL_VERSION: u8 = 1;

pub const CLASS_SUBSCRIBER: u8 = 0xf0;

pub const CLASS_CALL_CONTROL: u8 = 0xf1;

pub const CLASS_FRAME: u8 = 0xf2;

pub const CLASS_ERROR: u8 = 0xf3;

pub const CLASS_SERVICE: u8 = 0xf4;

pub const SUB_DEREGISTER: u8 = 0;

pub const SUB_REGISTER: u8 = 1;

pub const SUB_REREGISTER: u8 = 2;

pub const SUB_AFFILIATE: u8 = 8;

pub const SUB_DEAFFILIATE: u8 = 9;

pub const CALL_GROUP_TX: u8 = 2;

pub const CALL_GROUP_IDLE: u8 = 3;

pub const CALL_SETUP_REQUEST: u8 = 4;

pub const CALL_SETUP_ACCEPT: u8 = 5;

pub const CALL_SETUP_REJECT: u8 = 6;

pub const CALL_ALERT: u8 = 7;

pub const CALL_CONNECT_REQUEST: u8 = 8;

pub const CALL_CONNECT_CONFIRM: u8 = 9;

pub const CALL_RELEASE: u8 = 10;

pub const CALL_SHORT_TRANSFER: u8 = 11;

pub const CALL_SIMPLEX_GRANTED: u8 = 12;

pub const CALL_SIMPLEX_IDLE: u8 = 13;

pub const FRAME_TRAFFIC_CHANNEL: u8 = 0;

pub const FRAME_SDS_TRANSFER: u8 = 1;

pub const FRAME_SDS_REPORT: u8 = 2;

/// One dialled digit, decoded by the basestation.
pub const FRAME_DTMF: u8 = 3;

/// Bits of one coded speech frame (30 ms at 8 kHz).
pub const ACELP_CODED_FRAME_BITS: u16 = 137;

/// Bytes that hold one coded speech frame.
pub const ACELP_CODED_FRAME_BYTES: usize = 18;

/// Samples of one speech frame.
pub const ACELP_PCM_SAMPLES: usize = 240;

/// Bits of a traffic payload: two coded speech frames.
pub const STE_VOICE_PAYLOAD_BITS: u16 = 274;

/// Bytes of a traffic payload that carries two coded speech frames.
pub const STE_VOICE_PAYLOAD_BYTES: usize = 36;

/// Length of a circuit-call payload up to its mnemonic: source, destination,
/// `number[32]` and eleven single-byte fields.
pub const CIRCULAR_CALL_BASE_LEN: usize = 51;

/// Length of a group-transmission payload up to its mnemonic.
pub const GROUP_TX_BASE_LEN: usize = 12;

/// Length of the `mnemonic[34]` field.
pub const MNEMONIC_FIELD_LEN: usize = 34;

#[derive(Debug, Clone)]
pub enum BrewMessage {
    Subscriber(SubscriberMessage),
    CallControl(CallControlMessage),
    Frame(FrameMessage),
    Error(ErrorMessage),
    Service(ServiceMessage),
}

#[derive(Debug, Clone)]
pub struct SubscriberMessage {
    pub msg_type: u8,
    pub issi: u32,
    pub timestamp: u64,
    pub fraction: u32,
    pub groups: Vec<u32>,
}

#[derive(Debug, Clone)]
pub struct GroupTransmission {
    pub source: u32,
    pub destination: u32,
    pub priority: u8,
    pub access: u8,
    pub service: u16,
    /// Talking-party mnemonic from the `mnemonic[34]` tail of protocol version
    /// 1. `None` for a version 0 peer and for an empty mnemonic.
    pub mnemonic: Option<String>,
}

/// Circuit-mode (individual) call set-up payload. On the wire: source(4),
/// destination(4), number\[32\], priority, service, mode, duplex, method,
/// communication, grant, permission, timeout, ownership, queued, and from
/// version 1, on a set-up request only, mnemonic\[34\].
#[derive(Debug, Clone)]
pub struct CircularCall {
    pub source: u32,
    pub destination: u32,
    pub number: String,
    pub priority: u8,
    pub mnemonic: Option<String>,
}

/// Negotiated protocol version of one connection. It starts at `V0` and is
/// promoted to `V1` by the discovery header or by a message whose length can
/// only belong to the version 1 layout. It never falls back.
#[derive(Debug, Clone, Copy, PartialEq, Eq, Structural)]
pub enum ConnVersion {
    V0,
    V1,
}

impl Default for ConnVersion {
    fn default() -> (r: Self)
        ensures
            r == ConnVersion::V0,
    {
        ConnVersion::V0
    }
}

#[derive(Debug, Clone)]
pub enum CallPayload {
    GroupTransmission(GroupTransmission),
    CircularCall(CircularCall),
    Cause(u8),
    Empty,
    ShortTransfer { source: u32, destination: u32 },
    Raw(Vec<u8>),
}

#[derive(Debug, Clone)]
pub struct CallControlMessage {
    pub call_state: u8,
    pub identifier: Id,
    pub payload: CallPayload,
}

#[derive(Debug, Clone)]
pub struct FrameMessage {
    pub frame_type: u8,
    pub identifier: Id,
    pub length_bits: u16,
    pub data: Vec<u8>,
}

#[derive(Debug, Clone)]
pub struct ErrorMessage {
    pub error_type: u8,
    pub data: Vec<u8>,
}

#[derive(Debug, Clone)]
pub struct ServiceMessage {
    pub service_type: u8,
    pub json_data: String,
}

#[derive(Debug, Clone, Copy, PartialEq, Eq, Structural)]
pub enum ParseError {
    TooShort(usize),
    UnknownClass(u8),
    InvalidUtf8,
}

/// What a call-control payload says.
pub enum PayloadModel {
    GroupTransmission {
        source: u32,
        destination: u32,
        priority: u8,
        access: u8,
        service: u16,
        mnemonic: Option<Seq<char>>,
    },
    CircularCall {
        source: u32,
        destination: u32,
        number: Seq<char>,
        priority: u8,
        mnemonic: Option<Seq<char>>,
    },
    Cause(u8),
    Empty,
    ShortTransfer { source: u32, destination: u32 },
    Raw(Seq<u8>),
}

/// What a packet says.
pub enum MessageModel {
    Subscriber { msg_type: u8, issi: u32, timestamp: u64, fraction: u32, groups: Seq<u32> },
    CallControl { call_state: u8, identifier: Id, payload: PayloadModel },
    Frame { frame_type: u8, identifier: Id, length_bits: u16, data: Seq<u8> },
    Error { error_type: u8, data: Seq<u8> },
    Service { service_type: u8, json_data: Seq<char> },
}

/// The characters of an optional text.
pub open spec fn opt_text(o: Option<String>) -> Option<Seq<char>> {
    match o {
        Some(s) => Some(s@),
        None => None,
    }
}

impl View for CallPayload {
    type V = PayloadModel;

    open spec fn view(&self) -> PayloadModel {
        match *self {
            CallPayload::GroupTransmission(g) => PayloadModel::GroupTransmission {
                source: g.source,
                destination: g.destination,
                priority: g.priority,
                access: g.access,
                service: g.service,
                mnemonic: opt_text(g.mnemonic),
            },
            CallPayload::CircularCall(c) => PayloadModel::CircularCall {
                source: c.source,
                destination: c.destination,
                number: c.number@,
                priority: c.priority,
                mnemonic: opt_text(c.mnemonic),
            },
            CallPayload::Cause(c) => PayloadModel::Cause(c),
            CallPayload::Empty => PayloadModel::Empty,
            CallPayload::ShortTransfer { source, destination } => PayloadModel::ShortTransfer {
                source,
                destination,
            },
            CallPayload::Raw(v) => PayloadModel::Raw(v@),
        }
    }
}

impl View for BrewMessage {
    type V = MessageModel;

    open spec fn view(&self) -> MessageModel {
        match *self {
            BrewMessage::Subscriber(m) => MessageModel::Subscriber {
                msg_type: m.msg_type,
                issi: m.issi,
                timestamp: m.timestamp,
                fraction: m.fraction,
                groups: m.groups@,
            },
            BrewMessage::CallControl(m) => MessageModel::CallControl {
                call_state: m.call_state,
                identifier: m.identifier,
                payload: m.payload@,
            },
            BrewMessage::Frame(m) => MessageModel::Frame {
                frame_type: m.frame_type,
                identifier: m.identifier,
                length_bits: m.length_bits,
                data: m.data@,
            },
            BrewMessage::Error(m) => MessageModel::Error { error_type: m.error_type, data: m.data@ },
            BrewMessage::Service(m) => MessageModel::Service {
                service_type: m.service_type,
                json_data: m.json_data@,
            },
        }
    }
}

impl ConnVersion {
    /// Number of the version.
    pub open spec fn number(self) -> u8 {
        match self {
            ConnVersion::V0 => 0,
            ConnVersion::V1 => 1,
        }
    }

    pub fn as_u8(self) -> (r: u8)
        ensures
            r == self.number(),
    {
        match self {
            ConnVersion::V0 => 0,
            ConnVersion::V1 => 1,
        }
    }

    pub fn has_mnemonic(self) -> (r: bool)
        ensures
            r == (self == ConnVersion::V1),
    {
        match self {
            ConnVersion::V0 => false,
            ConnVersion::V1 => true,
        }
    }

    /// Version claimed by a discovery header value: version 1 from 1 on.
    pub open spec fn of_header(v: Option<u8>) -> ConnVersion {
        match v {
            Some(x) => if x >= 1 {
                ConnVersion::V1
            } else {
                ConnVersion::V0
            },
            None => ConnVersion::V0,
        }
    }

    pub fn from_header_value(v: Option<u8>) -> (r: Self)
        ensures
            r == ConnVersion::of_header(v),
    {
        match v {
            Some(x) => if x >= 1 {
                ConnVersion::V1
            } else {
                ConnVersion::V0
            },
            None => ConnVersion::V0,
        }
    }
}

impl ParseError {
    /// Description of the error for people.
    pub open spec fn text(self) -> Seq<char> {
        match self {
            ParseError::TooShort(n) => "Brew packet too short: "@ + text::decimal(n as nat) + " bytes"@,
            ParseError::UnknownClass(c) => "unknown Brew class 0x"@ + seq![
                ids::hex_digit(c as int / 16),
                ids::hex_digit(c as int % 16),
            ],
            ParseError::InvalidUtf8 => "invalid UTF-8 service payload"@,
        }
    }

    pub fn message(&self) -> (r: String)
        ensures
            r@ == self.text(),
    {
        let mut out = String::new();
        match *self {
            ParseError::TooShort(n) => {
                push_text(&mut out, "Brew packet too short: ");
                push_decimal(&mut out, n as u64);
                push_text(&mut out, " bytes");
            },
            ParseError::UnknownClass(c) => {
                push_text(&mut out, "unknown Brew class 0x");
                out.push(hex_char(c / 16));
                out.push(hex_char(c % 16));
            },
            ParseError::InvalidUtf8 => {
                push_text(&mut out, "invalid UTF-8 service payload");
            },
        }
        assert(out@ =~= self.text());
        out
    }
}

/// Lower-case hexadecimal digit.
pub fn hex_char(n: u8) -> (r: char)
    requires
        n < 16,
    ensures
        r == ids::hex_digit(n as int),
{
    if n < 10 {
        (n + 48) as char
    } else {
        (n - 10 + 97) as char
    }
}

/// Smaller of two lengths.
pub open spec fn at_most(a: int, b: int) -> int {
    if a < b {
        a
    } else {
        b
    }
}

/// Each byte as the character with that number (ISO 8859-1).
pub open spec fn latin1(s: Seq<u8>) -> Seq<char> {
    s.map_values(|b: u8| b as char)
}

/// The byte at `i`, zero past the end.
pub open spec fn byte_or_zero(s: Seq<u8>, i: int) -> u8 {
    if 0 <= i < s.len() {
        s[i]
    } else {
        0
    }
}

/// The `i`-th group of seven bits, counted from the least significant bit of
/// the first byte; bits past the end are zero.
pub open spec fn septet(s: Seq<u8>, i: int) -> u8 {
    let k = 7 * i / 8;
    let pair = (byte_or_zero(s, k) + 256 * byte_or_zero(s, k + 1)) as u16;
    ((pair >> ((7 * i % 8) as u16)) % 128) as u8
}

/// Number of septets in a text of `bits` bits of which `len` bytes are there.
pub open spec fn septet_count(len: int, bits: int) -> int {
    at_most(bits / 7, (8 * len + 6) / 7)
}

/// Text of septets.
pub open spec fn septets(s: Seq<u8>, bits: int) -> Seq<char> {
    Seq::new(septet_count(s.len() as int, bits) as nat, |i: int| septet(s, i) as char)
}

/// Text of a mnemonic field: octet 0 is the coding scheme (low seven bits),
/// octet 1 the length in bits, the rest the characters. Scheme 0 is one byte
/// per character, scheme 1 packed septets; any other is read as UTF-8 with
/// malformed parts replaced. Trailing padding is dropped, and an empty text is
/// no mnemonic.
pub open spec fn mnemonic_text(field: Seq<u8>) -> Option<Seq<char>> {
    if field.len() < 2 || field[1] == 0 {
        None
    } else {
        let bits = field[1] as int;
        let body = field.subrange(2, field.len() as int);
        let scheme = field[0] as int % 128;
        let decoded = if scheme == 0 {
            latin1(body.subrange(0, at_most(bits / 8, body.len() as int)))
        } else if scheme == 1 {
            septets(body, bits)
        } else {
            text::read_text(body.subrange(0, at_most((bits + 7) / 8, body.len() as int)))
        };
        let text = text::trim_padding(decoded);
        if text.len() == 0 {
            None
        } else {
            Some(text)
        }
    }
}

/// Text of a fixed-width, NUL-terminated field.
pub open spec fn field_text(s: Seq<u8>) -> Seq<char> {
    text::read_text(s.subrange(0, bytes::index_or_len(s, 0)))
}

/// The mnemonic that a group transmission carries.
pub open spec fn group_mnemonic(p: Seq<u8>) -> Option<Seq<char>> {
    if p.len() > GROUP_TX_BASE_LEN {
        mnemonic_text(
            p.subrange(
                GROUP_TX_BASE_LEN as int,
                at_most(GROUP_TX_BASE_LEN + MNEMONIC_FIELD_LEN, p.len() as int),
            ),
        )
    } else {
        None
    }
}

/// Whether a set-up request carries the mnemonic field.
pub open spec fn setup_has_tail(p: Seq<u8>) -> bool {
    p.len() >= CIRCULAR_CALL_BASE_LEN + MNEMONIC_FIELD_LEN
}

/// What the payload of a call-control packet in the given state says; nothing
/// when it is too short for that state.
pub open spec fn payload_model(state: u8, p: Seq<u8>) -> Option<PayloadModel> {
    if state == CALL_GROUP_TX {
        if p.len() < GROUP_TX_BASE_LEN {
            None
        } else {
            Some(
                PayloadModel::GroupTransmission {
                    source: bytes::le32(p, 0) as u32,
                    destination: bytes::le32(p, 4) as u32,
                    priority: p[8],
                    access: p[9],
                    service: bytes::le16(p, 10) as u16,
                    mnemonic: group_mnemonic(p),
                },
            )
        }
    } else if state == CALL_SETUP_REQUEST || state == CALL_CONNECT_REQUEST {
        if p.len() < CIRCULAR_CALL_BASE_LEN {
            None
        } else {
            Some(
                PayloadModel::CircularCall {
                    source: bytes::le32(p, 0) as u32,
                    destination: bytes::le32(p, 4) as u32,
                    number: field_text(p.subrange(8, 40)),
                    priority: p[40],
                    mnemonic: if state == CALL_SETUP_REQUEST && setup_has_tail(p) {
                        mnemonic_text(
                            p.subrange(
                                CIRCULAR_CALL_BASE_LEN as int,
                                CIRCULAR_CALL_BASE_LEN + MNEMONIC_FIELD_LEN,
                            ),
                        )
                    } else {
                        None
                    },
                },
            )
        }
    } else if state == CALL_GROUP_IDLE || state == CALL_SETUP_REJECT || state == CALL_RELEASE {
        if p.len() == 0 {
            None
        } else {
            Some(PayloadModel::Cause(p[0]))
        }
    } else if state == CALL_SETUP_ACCEPT || state == CALL_ALERT {
        Some(PayloadModel::Empty)
    } else if state == CALL_SHORT_TRANSFER {
        if p.len() < 8 {
            None
        } else {
            Some(
                PayloadModel::ShortTransfer {
                    source: bytes::le32(p, 0) as u32,
                    destination: bytes::le32(p, 4) as u32,
                },
            )
        }
    } else {
        Some(PayloadModel::Raw(p))
    }
}

/// Connection version after a call-control packet: version 1 once a payload
/// carries a mnemonic field, else unchanged.
pub open spec fn promoted(state: u8, p: Seq<u8>, version: ConnVersion) -> ConnVersion {
    if (state == CALL_GROUP_TX && p.len() > GROUP_TX_BASE_LEN) || (state == CALL_SETUP_REQUEST
        && setup_has_tail(p)) {
        ConnVersion::V1
    } else {
        version
    }
}

/// The group numbers of a subscriber packet: four bytes each from byte 18 on;
/// an incomplete rest is ignored.
pub open spec fn group_list(data: Seq<u8>) -> Seq<u32> {
    Seq::new(((data.len() - 18) / 4) as nat, |i: int| bytes::le32(data, 18 + 4 * i) as u32)
}

/// What a packet says on a connection of the given version, and the version of
/// the connection after it; or why it cannot be read.
pub open spec fn parsed(data: Seq<u8>, version: ConnVersion) -> Result<
    (MessageModel, ConnVersion),
    ParseError,
> {
    let short = Err(ParseError::TooShort(data.len() as usize));
    if data.len() < 2 {
        short
    } else if data[0] == CLASS_SUBSCRIBER {
        if data.len() < 18 {
            short
        } else {
            Ok(
                (
                    MessageModel::Subscriber {
                        msg_type: data[1],
                        issi: bytes::le32(data, 2) as u32,
                        timestamp: bytes::le64(data, 6) as u64,
                        fraction: bytes::le32(data, 14) as u32,
                        groups: group_list(data),
                    },
                    version,
                ),
            )
        }
    } else if data[0] == CLASS_CALL_CONTROL {
        if data.len() < 18 {
            short
        } else {
            let p = data.subrange(18, data.len() as int);
            match payload_model(data[1], p) {
                None => short,
                Some(payload) => Ok(
                    (
                        MessageModel::CallControl {
                            call_state: data[1],
                            identifier: crate::bytes::be_value(data.subrange(2, 18)) as Id,
                            payload,
                        },
                        promoted(data[1], p, version),
                    ),
                ),
            }
        }
    } else if data[0] == CLASS_FRAME {
        if data.len() < 20 {
            short
        } else {
            Ok(
                (
                    MessageModel::Frame {
                        frame_type: data[1],
                        identifier: crate::bytes::be_value(data.subrange(2, 18)) as Id,
                        length_bits: bytes::le16(data, 18) as u16,
                        data: data.subrange(20, data.len() as int),
                    },
                    version,
                ),
            )
        }
    } else if data[0] == CLASS_ERROR {
        Ok(
            (
                MessageModel::Error {
                    error_type: data[1],
                    data: data.subrange(2, data.len() as int),
                },
                version,
            ),
        )
    } else if data[0] == CLASS_SERVICE {
        let raw = data.subrange(2, data.len() as int);
        let body = raw.subrange(0, bytes::index_or_len(raw, 0));
        if vstd::utf8::valid_utf8(body) {
            Ok(
                (
                    MessageModel::Service { service_type: data[1], json_data: vstd::utf8::decode_utf8(body) },
                    version,
                ),
            )
        } else {
            Err(ParseError::InvalidUtf8)
        }
    } else {
        Err(ParseError::UnknownClass(data[0]))
    }
}

proof fn septet_of_pair(a: u8, b: u8, off: u16)
    requires
        off < 8,
    ensures
        ({
            let pair = (a as int + 256 * b as int) as u16;
            let value = if off > 1 {
                ((a >> (off as u8)) as u16) | ((b as u16) << ((8 - off) as u16))
            } else {
                (a >> (off as u8)) as u16
            };
            value & 0x7f == (pair >> off) % 128
        }),
{
    let pair: u16 = (a as u16 + 256 * (b as u16)) as u16;
    let low: u16 = (a >> (off as u8)) as u16;
    assert(off < 8 && off > 1 ==> (((a >> (off as u8)) as u16) | ((b as u16) << ((8 - off) as u16)))
        & 0x7f == (((a as u16 + 256 * (b as u16)) as u16) >> off) % 128) by (bit_vector);
    assert(off <= 1 ==> ((a >> (off as u8)) as u16) & 0x7f == (((a as u16 + 256 * (b as u16)) as u16)
        >> off) % 128) by (bit_vector);
}

/// Unpacks septets into text.
pub fn decode_7bit_packed(data: &[u8], len_bits: usize) -> (r: String)
    ensures
        r@ == septets(data@, len_bits as int),
{
    let nchars: usize = len_bits / 7;
    let mut out = String::new();
    let mut i: usize = 0;
    while i < nchars && 7 * i / 8 < data.len()
        invariant
            i <= nchars,
            7 * nchars <= len_bits,
            i <= (8 * data@.len() + 6) / 7,
            out@ == Seq::new(i as nat, |k: int| septet(data@, k) as char),
        decreases nchars - i,
    {
        let k: usize = 7 * i / 8;
        let off: u16 = (7 * i % 8) as u16;
        let a: u8 = data[k];
        let mut b: u8 = 0;
        if k + 1 < data.len() {
            b = data[k + 1];
        }
        let mut value: u16 = (a >> (off as u8)) as u16;
        if off > 1 {
            value = value | ((b as u16) << ((8 - off) as u16));
        }
        proof {
            septet_of_pair(a, b, off);
        }
        let s: u8 = (value & 0x7f) as u8;
        assert(s == septet(data@, i as int));
        out.push(s as char);
        i += 1;
        assert(out@ =~= Seq::new(i as nat, |k: int| septet(data@, k) as char));
    }
    out
}

/// Decodes a mnemonic field.
pub fn decode_mnemonic(field: &[u8]) -> (r: Option<String>)
    ensures
        opt_text(r) == mnemonic_text(field@),
{
    if field.len() < 2 {
        return None;
    }
    let scheme: u8 = field[0] % 128;
    let len_bits: usize = field[1] as usize;
    if len_bits == 0 {
        return None;
    }
    let body = slice_subrange(field, 2, field.len());
    let decoded: String = if scheme == 0 {
        let nchars: usize = len_bits / 8;
        let take: usize = if nchars < body.len() {
            nchars
        } else {
            body.len()
        };
        latin1_text(slice_subrange(body, 0, take))
    } else if scheme == 1 {
        decode_7bit_packed(body, len_bits)
    } else {
        let nbytes: usize = (len_bits + 7) / 8;
        let take: usize = if nbytes < body.len() {
            nbytes
        } else {
            body.len()
        };
        lossy_text(slice_subrange(body, 0, take))
    };
    let chars = chars_of(decoded.as_str());
    let trimmed = trim_padding_chars(&chars);
    if trimmed.len() == 0 {
        None
    } else {
        Some(string_of(trimmed))
    }
}

/// Text whose characters have the numbers of the bytes.
fn latin1_text(b: &[u8]) -> (r: String)
    ensures
        r@ == latin1(b@),
{
    let mut out = String::new();
    let mut i: usize = 0;
    while i < b.len()
        invariant
            i <= b@.len(),
            out@ == latin1(b@.subrange(0, i as int)),
        decreases b@.len() - i,
    {
        out.push(b[i] as char);
        i += 1;
        assert(out@ =~= latin1(b@.subrange(0, i as int)));
    }
    assert(b@.subrange(0, i as int) =~= b@);
    out
}

/// Reads a fixed-width, NUL-terminated field.
pub fn ascii_field(data: &[u8]) -> (r: String)
    ensures
        r@ == field_text(data@),
{
    let end: usize = find_or_len(data, 0);
    lossy_text(slice_subrange(data, 0, end))
}

/// Parses a packet in the most capable layout, version 1.
pub fn parse(data: &[u8]) -> (r: Result<BrewMessage, ParseError>)
    ensures
        match r {
            Ok(m) => parsed(data@, ConnVersion::V1) == Ok::<(MessageModel, ConnVersion), ParseError>(
                (m@, ConnVersion::V1),
            ),
            Err(e) => parsed(data@, ConnVersion::V1) == Err::<
                (MessageModel, ConnVersion),
                ParseError,
            >(e),
        },
{
    match parse_with_version(data, ConnVersion::V1) {
        Ok(p) => Ok(p.0),
        Err(e) => Err(e),
    }
}

/// Parses a packet on a connection of the given version and reports the version
/// of the connection after it.
pub fn parse_with_version(data: &[u8], version: ConnVersion) -> (r: Result<
    (BrewMessage, ConnVersion),
    ParseError,
>)
    ensures
        match r {
            Ok((m, v)) => parsed(data@, version) == Ok::<(MessageModel, ConnVersion), ParseError>(
                (m@, v),
            ),
            Err(e) => parsed(data@, version) == Err::<(MessageModel, ConnVersion), ParseError>(e),
        },
{
    if data.len() < 2 {
        return Err(ParseError::TooShort(data.len()));
    }
    let class: u8 = data[0];
    if class == CLASS_SUBSCRIBER {
        match parse_subscriber(data) {
            Ok(m) => Ok((m, version)),
            Err(e) => Err(e),
        }
    } else if class == CLASS_CALL_CONTROL {
        parse_call_control(data, version)
    } else if class == CLASS_FRAME {
        match parse_frame(data) {
            Ok(m) => Ok((m, version)),
            Err(e) => Err(e),
        }
    } else if class == CLASS_ERROR {
        Ok(
            (
                BrewMessage::Error(
                    ErrorMessage { error_type: data[1], data: copy_range(data, 2, data.len()) },
                ),
                version,
            ),
        )
    } else if class == CLASS_SERVICE {
        match parse_service(data) {
            Ok(m) => Ok((m, version)),
            Err(e) => Err(e),
        }
    } else {
        Err(ParseError::UnknownClass(class))
    }
}

fn parse_subscriber(data: &[u8]) -> (r: Result<BrewMessage, ParseError>)
    requires
        data@.len() >= 2,
        data@[0] == CLASS_SUBSCRIBER,
    ensures
        match r {
            Ok(m) => parsed(data@, ConnVersion::V0) == Ok::<(MessageModel, ConnVersion), ParseError>(
                (m@, ConnVersion::V0),
            ),
            Err(e) => parsed(data@, ConnVersion::V0) == Err::<
                (MessageModel, ConnVersion),
                ParseError,
            >(e),
        },
        r is Ok <==> data@.len() >= 18,
{
    if data.len() < 18 {
        return Err(ParseError::TooShort(data.len()));
    }
    let mut groups: Vec<u32> = Vec::new();
    let n: usize = (data.len() - 18) / 4;
    let mut i: usize = 0;
    while i < n
        invariant
            i <= n,
            n == (data@.len() - 18) / 4,
            data@.len() >= 18,
            data@.len() <= usize::MAX,
            groups@ == group_list(data@).subrange(0, i as int),
        decreases n - i,
    {
        groups.push(u32le(data, 18 + 4 * i));
        i += 1;
        assert(groups@ =~= group_list(data@).subrange(0, i as int));
    }
    assert(groups@ =~= group_list(data@));
    Ok(
        BrewMessage::Subscriber(
            SubscriberMessage {
                msg_type: data[1],
                issi: u32le(data, 2),
                timestamp: u64le(data, 6),
                fraction: u32le(data, 14),
                groups,
            },
        ),
    )
}

fn parse_call_control(data: &[u8], version: ConnVersion) -> (r: Result<
    (BrewMessage, ConnVersion),
    ParseError,
>)
    requires
        data@.len() >= 2,
        data@[0] == CLASS_CALL_CONTROL,
    ensures
        match r {
            Ok((m, v)) => parsed(data@, version) == Ok::<(MessageModel, ConnVersion), ParseError>(
                (m@, v),
            ),
            Err(e) => parsed(data@, version) == Err::<(MessageModel, ConnVersion), ParseError>(e),
        },
{
    if data.len() < 18 {
        return Err(ParseError::TooShort(data.len()));
    }
    let id = read_id(data, 2);
    let payload = slice_subrange(data, 18, data.len());
    let state: u8 = data[1];
    let mut detected = version;
    let parsed_payload: CallPayload = if state == CALL_GROUP_TX {
        if payload.len() < GROUP_TX_BASE_LEN {
            return Err(ParseError::TooShort(data.len()));
        }
        let has_tail = payload.len() > GROUP_TX_BASE_LEN;
        let mnemonic = if has_tail {
            detected = ConnVersion::V1;
            let end: usize = if GROUP_TX_BASE_LEN + MNEMONIC_FIELD_LEN < payload.len() {
                GROUP_TX_BASE_LEN + MNEMONIC_FIELD_LEN
            } else {
                payload.len()
            };
            decode_mnemonic(slice_subrange(payload, GROUP_TX_BASE_LEN, end))
        } else {
            None
        };
        CallPayload::GroupTransmission(
            GroupTransmission {
                source: u32le(payload, 0),
                destination: u32le(payload, 4),
                priority: payload[8],
                access: payload[9],
                service: u16le(payload, 10),
                mnemonic,
            },
        )
    } else if state == CALL_SETUP_REQUEST {
        if payload.len() < CIRCULAR_CALL_BASE_LEN {
            return Err(ParseError::TooShort(data.len()));
        }
        let has_tail = payload.len() >= CIRCULAR_CALL_BASE_LEN + MNEMONIC_FIELD_LEN;
        let mnemonic = if has_tail {
            detected = ConnVersion::V1;
            decode_mnemonic(
                slice_subrange(
                    payload,
                    CIRCULAR_CALL_BASE_LEN,
                    CIRCULAR_CALL_BASE_LEN + MNEMONIC_FIELD_LEN,
                ),
            )
        } else {
            None
        };
        CallPayload::CircularCall(
            CircularCall {
                source: u32le(payload, 0),
                destination: u32le(payload, 4),
                number: ascii_field(slice_subrange(payload, 8, 40)),
                priority: payload[40],
                mnemonic,
            },
        )
    } else if state == CALL_CONNECT_REQUEST {
        if payload.len() < CIRCULAR_CALL_BASE_LEN {
            return Err(ParseError::TooShort(data.len()));
        }
        CallPayload::CircularCall(
            CircularCall {
                source: u32le(payload, 0),
                destination: u32le(payload, 4),
                number: ascii_field(slice_subrange(payload, 8, 40)),
                priority: payload[40],
                mnemonic: None,
            },
        )
    } else if state == CALL_GROUP_IDLE || state == CALL_SETUP_REJECT || state == CALL_RELEASE {
        if payload.len() == 0 {
            return Err(ParseError::TooShort(data.len()));
        }
        CallPayload::Cause(payload[0])
    } else if state == CALL_SETUP_ACCEPT || state == CALL_ALERT {
        CallPayload::Empty
    } else if state == CALL_SHORT_TRANSFER {
        if payload.len() < 8 {
            return Err(ParseError::TooShort(data.len()));
        }
        CallPayload::ShortTransfer { source: u32le(payload, 0), destination: u32le(payload, 4) }
    } else {
        CallPayload::Raw(copy_range(data, 18, data.len()))
    };
    Ok(
        (
            BrewMessage::CallControl(
                CallControlMessage { call_state: state, identifier: id, payload: parsed_payload },
            ),
            detected,
        ),
    )
}

fn parse_frame(data: &[u8]) -> (r: Result<BrewMessage, ParseError>)
    requires
        data@.len() >= 2,
        data@[0] == CLASS_FRAME,
    ensures
        match r {
            Ok(m) => parsed(data@, ConnVersion::V0) == Ok::<(MessageModel, ConnVersion), ParseError>(
                (m@, ConnVersion::V0),
            ),
            Err(e) => parsed(data@, ConnVersion::V0) == Err::<
                (MessageModel, ConnVersion),
                ParseError,
            >(e),
        },
        r is Ok <==> data@.len() >= 20,
{
    if data.len() < 20 {
        return Err(ParseError::TooShort(data.len()));
    }
    Ok(
        BrewMessage::Frame(
            FrameMessage {
                frame_type: data[1],
                identifier: read_id(data, 2),
                length_bits: u16le(data, 18),
                data: copy_range(data, 20, data.len()),
            },
        ),
    )
}

fn parse_service(data: &[u8]) -> (r: Result<BrewMessage, ParseError>)
    requires
        data@.len() >= 2,
        data@[0] == CLASS_SERVICE,
    ensures
        match r {
            Ok(m) => parsed(data@, ConnVersion::V0) == Ok::<(MessageModel, ConnVersion), ParseError>(
                (m@, ConnVersion::V0),
            ),
            Err(e) => parsed(data@, ConnVersion::V0) == Err::<
                (MessageModel, ConnVersion),
                ParseError,
            >(e),
        },
{
    let raw = slice_subrange(data, 2, data.len());
    let end: usize = find_or_len(raw, 0);
    match utf8_text(slice_subrange(raw, 0, end)) {
        Some(json_data) => Ok(
            BrewMessage::Service(ServiceMessage { service_type: data[1], json_data }),
        ),
        None => Err(ParseError::InvalidUtf8),
    }
}

/// Header of a call-control packet.
pub open spec fn call_head(call_state: u8, id: Id) -> Seq<u8> {
    seq![CLASS_CALL_CONTROL, call_state] + ids::id_bytes(id)
}

fn put_call_head(call_state: u8, id: Id) -> (r: Vec<u8>)
    ensures
        r@ == call_head(call_state, id),
{
    let mut out: Vec<u8> = Vec::new();
    out.push(CLASS_CALL_CONTROL);
    out.push(call_state);
    put_id(&mut out, id);
    assert(out@ =~= call_head(call_state, id));
    out
}

/// A call-control packet whose payload is one cause byte.
pub open spec fn call_cause_packet(call_state: u8, id: Id, cause: u8) -> Seq<u8> {
    call_head(call_state, id).push(cause)
}

pub fn build_call_cause(call_state: u8, id: &Id, cause: u8) -> (r: Vec<u8>)
    ensures
        r@ == call_cause_packet(call_state, *id, cause),
{
    let mut out = put_call_head(call_state, *id);
    out.push(cause);
    out
}

/// Builds a call-control packet without payload, used to drive the accept, ring
/// and answer handshake of a private call from the server side.
pub fn build_call_control_empty(call_state: u8, id: &Id) -> (r: Vec<u8>)
    ensures
        r@ == call_head(call_state, *id),
{
    put_call_head(call_state, *id)
}

/// The two leading 32-bit numbers of a raw payload.
pub open spec fn raw_pair(p: PayloadModel) -> Option<(u32, u32)> {
    match p {
        PayloadModel::Raw(raw) => if raw.len() >= 8 {
            Some((bytes::le32(raw, 0) as u32, bytes::le32(raw, 4) as u32))
        } else {
            None
        },
        _ => None,
    }
}

pub fn raw_peer_pair(payload: &CallPayload) -> (r: Option<(u32, u32)>)
    ensures
        r == raw_pair(payload@),
{
    match payload {
        CallPayload::Raw(raw) => {
            if raw.len() < 8 {
                None
            } else {
                Some((u32le(raw.as_slice(), 0), u32le(raw.as_slice(), 4)))
            }
        },
        _ => None,
    }
}

/// A circuit-call packet for a full-duplex call with hook signalling: `duplex`
/// and `method` are 1, the dialled number and the other single-byte fields are
/// zero.
pub open spec fn circular_call_packet(
    call_state: u8,
    id: Id,
    source: u32,
    destination: u32,
    priority: u8,
) -> Seq<u8> {
    call_head(call_state, id) + bytes::le32_bytes(source) + bytes::le32_bytes(destination) + Seq::new(
        32,
        |i: int| 0u8,
    ) + seq![priority, 0u8, 0u8, 1u8, 1u8, 0u8, 0u8, 0u8, 0u8, 0u8, 0u8]
}

fn build_circular_call(
    call_state: u8,
    id: Id,
    source: u32,
    destination: u32,
    priority: u8,
) -> (r: Vec<u8>)
    ensures
        r@ == circular_call_packet(call_state, id, source, destination, priority),
{
    let mut out = put_call_head(call_state, id);
    put_u32le(&mut out, source);
    put_u32le(&mut out, destination);
    put_zeros(&mut out, 32);
    let tail: [u8; 11] = [priority, 0, 0, 1, 1, 0, 0, 0, 0, 0, 0];
    put_bytes(&mut out, &tail);
    assert(tail@ =~= seq![priority, 0u8, 0u8, 1u8, 1u8, 0u8, 0u8, 0u8, 0u8, 0u8, 0u8]);
    out
}

/// Builds a server-originated set-up request toward a registered subscriber, for
/// a call that comes from the SIP side.
pub fn build_circular_call_setup(id: &Id, source: u32, destination: u32, priority: u8) -> (r: Vec<
    u8,
>)
    ensures
        r@ == circular_call_packet(CALL_SETUP_REQUEST, *id, source, destination, priority),
{
    build_circular_call(CALL_SETUP_REQUEST, *id, source, destination, priority)
}

/// Builds the message that tells a calling mobile terminal that the SIP side
/// has answered.
pub fn build_circular_connect_request(
    id: &Id,
    source: u32,
    destination: u32,
    priority: u8,
) -> (r: Vec<u8>)
    ensures
        r@ == circular_call_packet(CALL_CONNECT_REQUEST, *id, source, destination, priority),
{
    build_circular_call(CALL_CONNECT_REQUEST, *id, source, destination, priority)
}

/// A group-transmission packet without mnemonic.
pub open spec fn group_tx_packet(id: Id, source: u32, destination: u32, priority: u8) -> Seq<u8> {
    call_head(CALL_GROUP_TX, id) + bytes::le32_bytes(source) + bytes::le32_bytes(destination) + seq![
        priority,
        0u8,
        0u8,
        0u8,
    ]
}

/// Builds a server-originated group transmission, used to seize the floor on
/// behalf of a SIP caller bridged into a group call.
pub fn build_group_tx(id: &Id, source: u32, destination: u32, priority: u8) -> (r: Vec<u8>)
    ensures
        r@ == group_tx_packet(*id, source, destination, priority),
{
    let mut out = put_call_head(CALL_GROUP_TX, *id);
    put_u32le(&mut out, source);
    put_u32le(&mut out, destination);
    out.push(priority);
    out.push(0);
    put_u16le(&mut out, 0);
    assert(out@ =~= group_tx_packet(*id, source, destination, priority));
    out
}

/// A frame packet.
pub open spec fn frame_packet(frame_type: u8, id: Id, bits: u16, data: Seq<u8>) -> Seq<u8> {
    seq![CLASS_FRAME, frame_type] + ids::id_bytes(id) + bytes::le16_bytes(bits) + data
}

fn build_frame(frame_type: u8, id: Id, bits: u16, data: &[u8]) -> (r: Vec<u8>)
    ensures
        r@ == frame_packet(frame_type, id, bits, data@),
{
    let mut out: Vec<u8> = Vec::new();
    out.push(CLASS_FRAME);
    out.push(frame_type);
    put_id(&mut out, id);
    put_u16le(&mut out, bits);
    put_bytes(&mut out, data);
    assert(out@ =~= frame_packet(frame_type, id, bits, data@));
    out
}

/// Builds a traffic frame that carries one coded speech frame.
pub fn build_traffic_frame(id: &Id, coded: &[u8; ACELP_CODED_FRAME_BYTES]) -> (r: Vec<u8>)
    ensures
        r@ == frame_packet(FRAME_TRAFFIC_CHANNEL, *id, ACELP_CODED_FRAME_BITS, coded@),
{
    build_frame(FRAME_TRAFFIC_CHANNEL, *id, ACELP_CODED_FRAME_BITS, coded)
}

/// Builds a traffic frame that carries two packed speech frames.
pub fn build_ste_traffic_frame(id: &Id, payload: &[u8; STE_VOICE_PAYLOAD_BYTES]) -> (r: Vec<u8>)
    ensures
        r@ == frame_packet(FRAME_TRAFFIC_CHANNEL, *id, STE_VOICE_PAYLOAD_BITS, payload@),
{
    build_frame(FRAME_TRAFFIC_CHANNEL, *id, STE_VOICE_PAYLOAD_BITS, payload)
}

/// Group numbers on the wire.
pub open spec fn group_bytes(groups: Seq<u32>) -> Seq<u8>
    decreases groups.len(),
{
    if groups.len() == 0 {
        Seq::empty()
    } else {
        group_bytes(groups.drop_last()) + bytes::le32_bytes(groups.last())
    }
}

/// A subscriber packet with a zero time stamp.
pub open spec fn subscriber_packet(msg_type: u8, issi: u32, groups: Seq<u32>) -> Seq<u8> {
    seq![CLASS_SUBSCRIBER, msg_type] + bytes::le32_bytes(issi) + bytes::le64_bytes(0) + bytes::le32_bytes(0)
        + group_bytes(groups)
}

/// Builds a subscriber packet, used to tell another server about a
/// registration.
pub fn build_subscriber_message(msg_type: u8, issi: u32, groups: &[u32]) -> (r: Vec<u8>)
    ensures
        r@ == subscriber_packet(msg_type, issi, groups@),
{
    let mut out: Vec<u8> = Vec::new();
    out.push(CLASS_SUBSCRIBER);
    out.push(msg_type);
    put_u32le(&mut out, issi);
    put_u64le(&mut out, 0);
    put_u32le(&mut out, 0);
    let ghost head = out@;
    assert(head =~= seq![CLASS_SUBSCRIBER, msg_type] + bytes::le32_bytes(issi) + bytes::le64_bytes(0)
        + bytes::le32_bytes(0));
    let mut i: usize = 0;
    assert(groups@.subrange(0, 0) =~= Seq::<u32>::empty());
    while i < groups.len()
        invariant
            i <= groups@.len(),
            out@ == head + group_bytes(groups@.subrange(0, i as int)),
        decreases groups@.len() - i,
    {
        put_u32le(&mut out, groups[i]);
        i += 1;
        assert(groups@.subrange(0, i as int).drop_last() =~= groups@.subrange(0, i - 1));
        assert(out@ =~= head + group_bytes(groups@.subrange(0, i as int)));
    }
    assert(groups@.subrange(0, i as int) =~= groups@);
    out
}

/// A parsed message never demotes the connection, and what a packet says does
/// not depend on the version that the connection had.
pub proof fn version_never_falls_back(data: Seq<u8>, version: ConnVersion, other: ConnVersion)
    ensures
        match parsed(data, version) {
            Ok((m, v)) => {
                &&& v.number() >= version.number()
                &&& parsed(data, other) is Ok
                &&& parsed(data, other)->Ok_0.0 == m
            },
            Err(e) => parsed(data, other) == Err::<(MessageModel, ConnVersion), ParseError>(e),
        },
{
}

/// A connect request never carries a mnemonic and never promotes a connection.
pub proof fn connect_request_has_no_mnemonic(data: Seq<u8>, version: ConnVersion)
    requires
        data.len() >= 2,
        data[0] == CLASS_CALL_CONTROL,
        data[1] == CALL_CONNECT_REQUEST,
    ensures
        parsed(data, version) matches Ok((m, v)) ==> {
            &&& v == version
            &&& m->payload is CircularCall
            &&& m->payload->CircularCall_mnemonic is None
        },
{
}

/// A group transmission promotes the connection exactly when it is longer than
/// the fixed head, and carries no mnemonic otherwise.
pub proof fn group_tx_promotes_iff_tail(data: Seq<u8>)
    requires
        data.len() >= 18 + GROUP_TX_BASE_LEN,
        data[0] == CLASS_CALL_CONTROL,
        data[1] == CALL_GROUP_TX,
    ensures
        parsed(data, ConnVersion::V0) is Ok,
        parsed(data, ConnVersion::V0)->Ok_0.1 == ConnVersion::V1 <==> data.len() > 18
            + GROUP_TX_BASE_LEN,
        data.len() == 18 + GROUP_TX_BASE_LEN ==> parsed(
            data,
            ConnVersion::V0,
        )->Ok_0.0->payload->GroupTransmission_mnemonic is None,
{
}

proof fn call_head_fields(call_state: u8, id: Id, rest: Seq<u8>)
    ensures
        ({
            let d = call_head(call_state, id) + rest;
            &&& d.len() == 18 + rest.len()
            &&& d[0] == CLASS_CALL_CONTROL
            &&& d[1] == call_state
            &&& crate::bytes::be_value(d.subrange(2, 18)) == id as nat
            &&& d.subrange(18, d.len() as int) == rest
        }),
{
    ids::id_round_trip(id);
    let d = call_head(call_state, id) + rest;
    assert(d.subrange(2, 18) =~= ids::id_bytes(id));
    assert(d.subrange(18, d.len() as int) =~= rest);
}

/// A cause packet reads back as the cause of that call.
pub proof fn call_cause_round_trip(call_state: u8, id: Id, cause: u8, version: ConnVersion)
    requires
        call_state == CALL_GROUP_IDLE || call_state == CALL_SETUP_REJECT || call_state
            == CALL_RELEASE,
    ensures
        parsed(call_cause_packet(call_state, id, cause), version) == Ok::<
            (MessageModel, ConnVersion),
            ParseError,
        >(
            (
                MessageModel::CallControl {
                    call_state,
                    identifier: id,
                    payload: PayloadModel::Cause(cause),
                },
                version,
            ),
        ),
{
    call_head_fields(call_state, id, seq![cause]);
    assert(call_cause_packet(call_state, id, cause) =~= call_head(call_state, id) + seq![cause]);
}

/// A packet without payload reads back with an empty payload; a connect
/// confirmation, which has no payload of its own, as an empty raw one.
pub proof fn call_control_empty_round_trip(call_state: u8, id: Id, version: ConnVersion)
    requires
        call_state == CALL_SETUP_ACCEPT || call_state == CALL_ALERT || call_state
            == CALL_CONNECT_CONFIRM,
    ensures
        parsed(call_head(call_state, id), version) == Ok::<(MessageModel, ConnVersion), ParseError>(
            (
                MessageModel::CallControl {
                    call_state,
                    identifier: id,
                    payload: if call_state == CALL_CONNECT_CONFIRM {
                        PayloadModel::Raw(Seq::empty())
                    } else {
                        PayloadModel::Empty
                    },
                },
                version,
            ),
        ),
{
    call_head_fields(call_state, id, Seq::empty());
    assert(call_head(call_state, id) + Seq::<u8>::empty() =~= call_head(call_state, id));
}

/// A circuit-call packet reads back with the parties and priority it was built
/// for, no dialled number and no mnemonic.
pub proof fn circular_call_round_trip(
    call_state: u8,
    id: Id,
    source: u32,
    destination: u32,
    priority: u8,
    version: ConnVersion,
)
    requires
        call_state == CALL_SETUP_REQUEST || call_state == CALL_CONNECT_REQUEST,
    ensures
        parsed(circular_call_packet(call_state, id, source, destination, priority), version) == Ok::<
            (MessageModel, ConnVersion),
            ParseError,
        >(
            (
                MessageModel::CallControl {
                    call_state,
                    identifier: id,
                    payload: PayloadModel::CircularCall {
                        source,
                        destination,
                        number: Seq::empty(),
                        priority,
                        mnemonic: None,
                    },
                },
                version,
            ),
        ),
{
    let zeros = Seq::new(32, |i: int| 0u8);
    let tail = seq![priority, 0u8, 0u8, 1u8, 1u8, 0u8, 0u8, 0u8, 0u8, 0u8, 0u8];
    let rest = bytes::le32_bytes(source) + bytes::le32_bytes(destination) + zeros + tail;
    call_head_fields(call_state, id, rest);
    assert(circular_call_packet(call_state, id, source, destination, priority) =~= call_head(
        call_state,
        id,
    ) + rest);
    crate::bytes::le32_round_trip(source);
    crate::bytes::le32_round_trip(destination);
    assert(bytes::le32(rest, 0) == bytes::le32(bytes::le32_bytes(source), 0));
    assert(bytes::le32(rest, 4) == bytes::le32(bytes::le32_bytes(destination), 0));
    assert(rest.subrange(8, 40) =~= zeros);
    bytes::index_or_len_is_first(zeros, 0);
    assert(zeros[0] == 0);
    assert(zeros.subrange(0, 0) =~= Seq::<u8>::empty());
    assert(field_text(zeros) =~= Seq::<char>::empty());
    assert(rest[40] == priority);
}

/// A group-transmission packet reads back with the parties and priority it was
/// built for, and does not promote the connection.
pub proof fn group_tx_round_trip(
    id: Id,
    source: u32,
    destination: u32,
    priority: u8,
    version: ConnVersion,
)
    ensures
        parsed(group_tx_packet(id, source, destination, priority), version) == Ok::<
            (MessageModel, ConnVersion),
            ParseError,
        >(
            (
                MessageModel::CallControl {
                    call_state: CALL_GROUP_TX,
                    identifier: id,
                    payload: PayloadModel::GroupTransmission {
                        source,
                        destination,
                        priority,
                        access: 0,
                        service: 0,
                        mnemonic: None,
                    },
                },
                version,
            ),
        ),
{
    let tail = seq![priority, 0u8, 0u8, 0u8];
    let rest = bytes::le32_bytes(source) + bytes::le32_bytes(destination) + tail;
    call_head_fields(CALL_GROUP_TX, id, rest);
    assert(group_tx_packet(id, source, destination, priority) =~= call_head(CALL_GROUP_TX, id)
        + rest);
    crate::bytes::le32_round_trip(source);
    crate::bytes::le32_round_trip(destination);
    assert(bytes::le32(rest, 0) == bytes::le32(bytes::le32_bytes(source), 0));
    assert(bytes::le32(rest, 4) == bytes::le32(bytes::le32_bytes(destination), 0));
}

/// A frame packet reads back with the type, call, bit count and data it was
/// built from.
pub proof fn frame_round_trip(
    frame_type: u8,
    id: Id,
    bits: u16,
    data: Seq<u8>,
    version: ConnVersion,
)
    ensures
        parsed(frame_packet(frame_type, id, bits, data), version) == Ok::<
            (MessageModel, ConnVersion),
            ParseError,
        >((MessageModel::Frame { frame_type, identifier: id, length_bits: bits, data }, version)),
{
    ids::id_round_trip(id);
    crate::bytes::le16_round_trip(bits);
    let d = frame_packet(frame_type, id, bits, data);
    assert(d.subrange(2, 18) =~= ids::id_bytes(id));
    assert(bytes::le16(d, 18) == bytes::le16(bytes::le16_bytes(bits), 0));
    assert(d.subrange(20, d.len() as int) =~= data);
}

proof fn group_bytes_fields(head: Seq<u8>, groups: Seq<u32>)
    requires
        head.len() == 18,
    ensures
        group_bytes(groups).len() == 4 * groups.len(),
        group_list(head + group_bytes(groups)) == groups,
    decreases groups.len(),
{
    let d = head + group_bytes(groups);
    if groups.len() > 0 {
        let init = groups.drop_last();
        group_bytes_fields(head, init);
        let before = head + group_bytes(init);
        crate::bytes::le32_round_trip(groups.last());
        assert(d =~= before + bytes::le32_bytes(groups.last()));
        assert forall|i: int| 0 <= i < groups.len() implies #[trigger] group_list(d)[i]
            == groups[i] by {
            if i < init.len() {
                assert(group_list(before)[i] == init[i]);
                assert(bytes::le32(d, 18 + 4 * i) == bytes::le32(before, 18 + 4 * i));
            } else {
                assert(bytes::le32(d, 18 + 4 * i) == bytes::le32(bytes::le32_bytes(groups.last()), 0));
            }
        }
    }
    assert(group_list(d) =~= groups);
}

/// A subscriber packet reads back with the subscriber and groups it was built
/// for.
pub proof fn subscriber_round_trip(
    msg_type: u8,
    issi: u32,
    groups: Seq<u32>,
    version: ConnVersion,
)
    ensures
        parsed(subscriber_packet(msg_type, issi, groups), version) == Ok::<
            (MessageModel, ConnVersion),
            ParseError,
        >(
            (
                MessageModel::Subscriber { msg_type, issi, timestamp: 0, fraction: 0, groups },
                version,
            ),
        ),
{
    let head = seq![CLASS_SUBSCRIBER, msg_type] + bytes::le32_bytes(issi) + bytes::le64_bytes(0) + bytes::le32_bytes(0);
    let d = subscriber_packet(msg_type, issi, groups);
    group_bytes_fields(head, groups);
    assert(d =~= head + group_bytes(groups));
    crate::bytes::le32_round_trip(issi);
    assert(bytes::le32(d, 2) == bytes::le32(bytes::le32_bytes(issi), 0));
    assert(bytes::le64(d, 6) == 0);
    assert(bytes::le32(d, 14) == 0);
}

/// The call that a packet names is determined by its bytes 2 to 17.
pub proof fn packet_names_its_call(data: Seq<u8>, version: ConnVersion)
    requires
        data.len() >= 18,
        data[0] == CLASS_CALL_CONTROL || data[0] == CLASS_FRAME,
    ensures
        parsed(data, version) matches Ok((m, _)) ==> ids::id_bytes(
            (match m {
                MessageModel::CallControl { identifier, .. } => identifier,
                MessageModel::Frame { identifier, .. } => identifier,
                _ => 0,
            }),
        ) == data.subrange(2, 18),
{
    crate::bytes::be_of_bytes(data.subrange(2, 18));
    crate::bytes::pow256_16();
}

} // verus!

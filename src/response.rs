//! Replies: decoding a device's bytes into header fields and a payload chosen
//! by the message type, as numbers or as rendered text.
#![allow(non_camel_case_types)]
use vstd::prelude::*;

use crate::convert::{
    as_ascii,
    as_boolean,
    as_hex,
    bitstr_to_u16,
    bitstr_to_u32,
    decimal,
    decimal_text,
    hex_text,
    lemma_binary_text_value,
    reversed,
    utf8_lossy,
};
use crate::request::{HEADER_LEN, STATE, STATE_SERVICE};
use crate::wire::{be_value, le_value, read_be};

verus! {

/// The bytes of a reply, to be decoded into numbers.
pub struct ResponseData(pub Vec<u8>);

/// The bytes of a reply, to be decoded into text.
pub struct ResponseMessage(pub Vec<u8>);

/// Why a reply could not be decoded.
#[derive(Debug, Clone, Copy, PartialEq, Eq, Structural)]
pub enum DecodeError {
    /// Shorter than the header, or than the payload its message type needs.
    MalformedInput,
}

/// A decoded reply.
#[derive(Debug)]
pub struct Response {
    pub size: u16,
    pub source: u32,
    pub mac_address: String,
    pub firmware: String,
    pub sequence_number: u16,
    pub reserved_1: u64,
    pub message_type: u16,
    pub reserved_2: u16,
    pub payload: Payload,
}

/// A decoded reply, each field rendered as text.
#[derive(Debug)]
pub struct ResponseString {
    pub size: String,
    pub source: String,
    pub mac_address: String,
    pub firmware: String,
    pub sequence_number: String,
    pub reserved_1: String,
    pub message_type: String,
    pub reserved_2: String,
    pub payload: PayloadString,
}

/// The payload of a reply, by message type.
#[derive(Debug)]
pub enum Payload {
    /// A message type without a known payload shape: nothing is decoded.
    Unsupported,
    /// The reply to discovery.
    StateService(StateServicePayload),
    /// The reply that carries a device's colour state.
    State(StatePayload),
}

/// The payload of a reply, by message type, rendered as text.
#[derive(Debug)]
pub enum PayloadString {
    Unsupported,
    StateService(StateServicePayloadString),
    State_String(StatePayload_String),
}

#[derive(Debug)]
pub struct StateServicePayload {
    pub service: u16,
    pub port: u32,
    /// The bytes after the port, in hex.
    pub unknown: String,
}

#[derive(Debug)]
pub struct StateServicePayloadString {
    pub service: String,
    pub port: String,
    pub unknown: String,
}

#[derive(Debug)]
pub struct StatePayload {
    /// The whole payload in hex.
    pub body: String,
    pub hsbk: PayloadHSBK,
}

#[derive(Debug)]
pub struct StatePayload_String {
    pub body: String,
    pub hsbk: PayloadHSBK_String,
}

/// Colour state as wire words.
#[derive(Debug)]
pub struct PayloadHSBK {
    pub hue: u16,
    pub saturation: u16,
    pub brightness: u16,
    pub kelvin: u16,
}

#[derive(Debug)]
pub struct PayloadHSBK_String {
    pub hue: String,
    pub saturation: String,
    pub brightness: String,
    pub kelvin: String,
}

/// The message type of a reply: two bytes at offset 32, little-endian.
pub open spec fn reply_type(b: Seq<u8>) -> nat {
    le_value(b.subrange(32, 34))
}

/// The shortest reply its message type allows: the header, plus service and
/// port for a discovery reply, plus four colour words for a state reply.
pub open spec fn needed_len(b: Seq<u8>) -> nat {
    if reply_type(b) == STATE_SERVICE {
        41
    } else if reply_type(b) == STATE {
        44
    } else {
        36
    }
}

/// The reply is long enough to decode.
pub open spec fn well_sized(b: Seq<u8>) -> bool {
    b.len() >= 36 && b.len() >= needed_len(b)
}

/// The little-endian value of the `len` bytes at `start`.
pub open spec fn le_at(b: Seq<u8>, start: int, len: int) -> nat {
    le_value(b.subrange(start, start + len))
}

/// `r` holds the header fields of `b`.
pub open spec fn header_of(b: Seq<u8>, r: Response) -> bool {
    &&& r.size == le_at(b, 0, 2)
    &&& r.source == le_at(b, 4, 4)
    &&& r.mac_address@ == hex_text(b.subrange(8, 16))
    &&& r.firmware@ == utf8_lossy(b.subrange(16, 22))
    &&& r.sequence_number == b[23]
    &&& r.reserved_1 == le_at(b, 24, 8)
    &&& r.message_type == le_at(b, 32, 2)
    &&& r.reserved_2 == be_value(b.subrange(34, 36))
}

/// `p` holds the payload of `b`, as its message type lays it out.
pub open spec fn payload_of(b: Seq<u8>, p: Payload) -> bool {
    match p {
        Payload::StateService(s) => {
            &&& reply_type(b) == STATE_SERVICE
            &&& s.service == b[36]
            &&& s.port == le_at(b, 37, 4)
            &&& s.unknown@ == hex_text(b.subrange(41, b.len() as int))
        },
        Payload::State(s) => {
            &&& reply_type(b) == STATE
            &&& s.body@ == hex_text(b.subrange(36, b.len() as int))
            &&& s.hsbk.hue == le_at(b, 36, 2)
            &&& s.hsbk.saturation == le_at(b, 38, 2)
            &&& s.hsbk.brightness == le_at(b, 40, 2)
            &&& s.hsbk.kelvin == le_at(b, 42, 2)
        },
        Payload::Unsupported => reply_type(b) != STATE_SERVICE && reply_type(b) != STATE,
    }
}

/// `r` holds the header fields of `b` as decimal text (mac address and
/// firmware as in `header_of`).
pub open spec fn header_text_of(b: Seq<u8>, r: ResponseString) -> bool {
    &&& r.size@ == decimal_text(le_at(b, 0, 2))
    &&& r.source@ == decimal_text(le_at(b, 4, 4))
    &&& r.mac_address@ == hex_text(b.subrange(8, 16))
    &&& r.firmware@ == utf8_lossy(b.subrange(16, 22))
    &&& r.sequence_number@ == decimal_text(b[23] as nat)
    &&& r.reserved_1@ == decimal_text(le_at(b, 24, 8))
    &&& r.message_type@ == decimal_text(le_at(b, 32, 2))
    &&& r.reserved_2@ == decimal_text(be_value(b.subrange(34, 36)))
}

/// `p` holds the payload of `b` as text.
pub open spec fn payload_text_of(b: Seq<u8>, p: PayloadString) -> bool {
    match p {
        PayloadString::StateService(s) => {
            &&& reply_type(b) == STATE_SERVICE
            &&& s.service@ == decimal_text(b[36] as nat)
            &&& s.port@ == decimal_text(le_at(b, 37, 4))
            &&& s.unknown@ == hex_text(b.subrange(41, b.len() as int))
        },
        PayloadString::State_String(s) => {
            &&& reply_type(b) == STATE
            &&& s.body@ == hex_text(b.subrange(36, b.len() as int))
            &&& s.hsbk.hue@ == decimal_text(le_at(b, 36, 2))
            &&& s.hsbk.saturation@ == decimal_text(le_at(b, 38, 2))
            &&& s.hsbk.brightness@ == decimal_text(le_at(b, 40, 2))
            &&& s.hsbk.kelvin@ == decimal_text(le_at(b, 42, 2))
        },
        PayloadString::Unsupported => reply_type(b) != STATE_SERVICE && reply_type(b) != STATE,
    }
}

/// The `len` bytes of `b` at `start`.
fn sub_bytes(b: &Vec<u8>, start: usize, len: usize) -> (r: Vec<u8>)
    requires
        start + len <= b@.len(),
    ensures
        r@ == b@.subrange(start as int, start + len),
{
    let mut r: Vec<u8> = Vec::new();
    let mut i: usize = 0;
    let n = b.len();
    while i < len
        invariant
            n == b@.len(),
            start + len <= n,
            i <= len,
            r@ == b@.subrange(start as int, start + i),
        decreases len - i,
    {
        r.push(b[start + i]);
        i = i + 1;
        assert(r@ =~= b@.subrange(start as int, start + i));
    }
    r
}

/// The `len` bytes of a reply at `start`.
pub fn extract(resp: &ResponseData, start: usize, len: usize) -> (r: Vec<u8>)
    requires
        start + len <= resp.0@.len(),
    ensures
        r@ == resp.0@.subrange(start as int, start + len),
{
    sub_bytes(&resp.0, start, len)
}

/// The `len` bytes of a reply at `start`.
pub fn extract_string(resp: &ResponseMessage, start: usize, len: usize) -> (r: Vec<u8>)
    requires
        start + len <= resp.0@.len(),
    ensures
        r@ == resp.0@.subrange(start as int, start + len),
{
    sub_bytes(&resp.0, start, len)
}

/// Up to two bytes read big-endian.
pub fn as_base10(v: Vec<u8>) -> (r: u16)
    requires
        v@.len() <= 2,
    ensures
        r == be_value(v@),
{
    proof {
        crate::wire::lemma_be_value_bound(v@);
        crate::wire::lemma_pow256_monotonic(v@.len(), 2);
        crate::wire::lemma_pow_values();
    }
    read_be(v.as_slice()) as u16
}

/// Up to two bytes at `start`, read little-endian.
fn le_short(b: &Vec<u8>, start: usize, len: usize) -> (r: u16)
    requires
        start + len <= b@.len(),
        len <= 2,
    ensures
        r == le_at(b@, start as int, len as int),
{
    let sub = sub_bytes(b, start, len);
    as_base10(reversed(&sub))
}

/// Up to four bytes at `start`, read little-endian through their binary digits.
fn le_bits(b: &Vec<u8>, start: usize, len: usize) -> (r: u32)
    requires
        start + len <= b@.len(),
        len <= 4,
    ensures
        r == le_at(b@, start as int, len as int),
{
    let sub = sub_bytes(b, start, len);
    let rev = reversed(&sub);
    proof {
        lemma_binary_text_value(rev@);
    }
    let bits = as_boolean(rev);
    bitstr_to_u32(bits.as_str())
}

/// Two bytes at `start`, read little-endian through their binary digits.
fn le_word_bits(b: &Vec<u8>, start: usize) -> (r: u16)
    requires
        start + 2 <= b@.len(),
    ensures
        r == le_at(b@, start as int, 2),
{
    let sub = sub_bytes(b, start, 2);
    let rev = reversed(&sub);
    proof {
        lemma_binary_text_value(rev@);
    }
    let bits = as_boolean(rev);
    bitstr_to_u16(bits.as_str())
}

/// Eight bytes at `start`, read little-endian.
fn le_long(b: &Vec<u8>, start: usize) -> (r: u64)
    requires
        start + 8 <= b@.len(),
    ensures
        r == le_at(b@, start as int, 8),
{
    let sub = sub_bytes(b, start, 8);
    let rev = reversed(&sub);
    read_be(rev.as_slice())
}

/// The bytes from `start` to the end, in hex.
fn hex_from(b: &Vec<u8>, start: usize) -> (r: String)
    requires
        start <= b@.len(),
    ensures
        r@ == hex_text(b@.subrange(start as int, b@.len() as int)),
{
    as_hex(sub_bytes(b, start, b.len() - start))
}

impl ResponseData {
    fn size(resp: &ResponseData) -> (r: u16)
        requires
            resp.0@.len() >= 36,
        ensures
            r == le_at(resp.0@, 0, 2),
    {
        le_short(&resp.0, 0, 2)
    }

    fn source(resp: &ResponseData) -> (r: u32)
        requires
            resp.0@.len() >= 36,
        ensures
            r == le_at(resp.0@, 4, 4),
    {
        le_bits(&resp.0, 4, 4)
    }

    fn mac_address(resp: &ResponseData) -> (r: String)
        requires
            resp.0@.len() >= 36,
        ensures
            r@ == hex_text(resp.0@.subrange(8, 16)),
    {
        as_hex(extract(resp, 8, 8))
    }

    fn firmware(resp: &ResponseData) -> (r: String)
        requires
            resp.0@.len() >= 36,
        ensures
            r@ == utf8_lossy(resp.0@.subrange(16, 22)),
    {
        as_ascii(extract(resp, 16, 6))
    }

    fn sequence_number(resp: &ResponseData) -> (r: u16)
        requires
            resp.0@.len() >= 36,
        ensures
            r == resp.0@[23],
    {
        let v = extract(resp, 23, 1);
        proof {
            reveal_with_fuel(be_value, 2);
            assert(v@.drop_last() =~= Seq::<u8>::empty());
        }
        as_base10(v)
    }

    fn reserved_1(resp: &ResponseData) -> (r: u64)
        requires
            resp.0@.len() >= 36,
        ensures
            r == le_at(resp.0@, 24, 8),
    {
        le_long(&resp.0, 24)
    }

    fn message_type(resp: &ResponseData) -> (r: u16)
        requires
            resp.0@.len() >= 36,
        ensures
            r == le_at(resp.0@, 32, 2),
    {
        le_short(&resp.0, 32, 2)
    }

    fn reserved_2(resp: &ResponseData) -> (r: u16)
        requires
            resp.0@.len() >= 36,
        ensures
            r == be_value(resp.0@.subrange(34, 36)),
    {
        as_base10(extract(resp, 34, 2))
    }

    fn service(resp: &ResponseData) -> (r: u16)
        requires
            resp.0@.len() >= 37,
        ensures
            r == resp.0@[36],
    {
        let v = extract(resp, 36, 1);
        proof {
            reveal_with_fuel(be_value, 2);
            assert(v@.drop_last() =~= Seq::<u8>::empty());
        }
        as_base10(v)
    }

    fn port(resp: &ResponseData) -> (r: u32)
        requires
            resp.0@.len() >= 41,
        ensures
            r == le_at(resp.0@, 37, 4),
    {
        le_bits(&resp.0, 37, 4)
    }

    fn unknown(resp: &ResponseData) -> (r: String)
        requires
            resp.0@.len() >= 41,
        ensures
            r@ == hex_text(resp.0@.subrange(41, resp.0@.len() as int)),
    {
        hex_from(&resp.0, 41)
    }

    fn body(resp: &ResponseData) -> (r: String)
        requires
            resp.0@.len() >= 36,
        ensures
            r@ == hex_text(resp.0@.subrange(36, resp.0@.len() as int)),
    {
        hex_from(&resp.0, 36)
    }

    fn hue(resp: &ResponseData) -> (r: u16)
        requires
            resp.0@.len() >= 44,
        ensures
            r == le_at(resp.0@, 36, 2),
    {
        le_word_bits(&resp.0, 36)
    }

    fn saturation(resp: &ResponseData) -> (r: u16)
        requires
            resp.0@.len() >= 44,
        ensures
            r == le_at(resp.0@, 38, 2),
    {
        le_word_bits(&resp.0, 38)
    }

    fn brightness(resp: &ResponseData) -> (r: u16)
        requires
            resp.0@.len() >= 44,
        ensures
            r == le_at(resp.0@, 40, 2),
    {
        le_word_bits(&resp.0, 40)
    }

    fn kelvin(resp: &ResponseData) -> (r: u16)
        requires
            resp.0@.len() >= 44,
        ensures
            r == le_at(resp.0@, 42, 2),
    {
        le_word_bits(&resp.0, 42)
    }
}

fn parse_header(resp: &ResponseData) -> (r: Response)
    requires
        resp.0@.len() >= 36,
    ensures
        header_of(resp.0@, r),
        r.payload is Unsupported,
{
    Response {
        size: ResponseData::size(resp),
        source: ResponseData::source(resp),
        mac_address: ResponseData::mac_address(resp),
        firmware: ResponseData::firmware(resp),
        sequence_number: ResponseData::sequence_number(resp),
        reserved_1: ResponseData::reserved_1(resp),
        message_type: ResponseData::message_type(resp),
        reserved_2: ResponseData::reserved_2(resp),
        payload: Payload::Unsupported,
    }
}

fn parse_payload_3(resp: &ResponseData) -> (r: Payload)
    requires
        resp.0@.len() >= 41,
        reply_type(resp.0@) == STATE_SERVICE,
    ensures
        payload_of(resp.0@, r),
{
    Payload::StateService(
        StateServicePayload {
            service: ResponseData::service(resp),
            port: ResponseData::port(resp),
            unknown: ResponseData::unknown(resp),
        },
    )
}

fn parse_payload_107(resp: &ResponseData) -> (r: Payload)
    requires
        resp.0@.len() >= 44,
        reply_type(resp.0@) == STATE,
    ensures
        payload_of(resp.0@, r),
{
    Payload::State(
        StatePayload {
            body: ResponseData::body(resp),
            hsbk: PayloadHSBK {
                hue: ResponseData::hue(resp),
                saturation: ResponseData::saturation(resp),
                brightness: ResponseData::brightness(resp),
                kelvin: ResponseData::kelvin(resp),
            },
        },
    )
}

/// Decodes a reply: the header fields, then the payload that its message
/// type selects (discovery reply, state reply, or none for other types).
/// Fails, and only then, when the reply is shorter than its layout needs.
pub fn parse_response(resp_msg: ResponseData) -> (r: Result<Response, DecodeError>)
    ensures
        match r {
            Ok(resp) => well_sized(resp_msg.0@) && header_of(resp_msg.0@, resp) && payload_of(
                resp_msg.0@,
                resp.payload,
            ),
            Err(e) => !well_sized(resp_msg.0@) && e == DecodeError::MalformedInput,
        },
        resp_msg.0@.len() < 36 ==> r is Err,
{
    if resp_msg.0.len() < HEADER_LEN {
        return Err(DecodeError::MalformedInput);
    }
    let mut resp = parse_header(&resp_msg);
    let n = resp_msg.0.len();
    let payload = if resp.message_type == STATE_SERVICE {
        if n < 41 {
            return Err(DecodeError::MalformedInput);
        }
        parse_payload_3(&resp_msg)
    } else if resp.message_type == STATE {
        if n < 44 {
            return Err(DecodeError::MalformedInput);
        }
        parse_payload_107(&resp_msg)
    } else {
        Payload::Unsupported
    };
    resp.payload = payload;
    Ok(resp)
}

impl ResponseMessage {
    fn size(resp: &ResponseMessage) -> (r: String)
        requires
            resp.0@.len() >= 36,
        ensures
            r@ == decimal_text(le_at(resp.0@, 0, 2)),
    {
        decimal(le_short(&resp.0, 0, 2) as u64)
    }

    fn source(resp: &ResponseMessage) -> (r: String)
        requires
            resp.0@.len() >= 36,
        ensures
            r@ == decimal_text(le_at(resp.0@, 4, 4)),
    {
        decimal(le_bits(&resp.0, 4, 4) as u64)
    }

    fn mac_address(resp: &ResponseMessage) -> (r: String)
        requires
            resp.0@.len() >= 36,
        ensures
            r@ == hex_text(resp.0@.subrange(8, 16)),
    {
        as_hex(extract_string(resp, 8, 8))
    }

    fn firmware(resp: &ResponseMessage) -> (r: String)
        requires
            resp.0@.len() >= 36,
        ensures
            r@ == utf8_lossy(resp.0@.subrange(16, 22)),
    {
        as_ascii(extract_string(resp, 16, 6))
    }

    fn sequence_number(resp: &ResponseMessage) -> (r: String)
        requires
            resp.0@.len() >= 36,
        ensures
            r@ == decimal_text(resp.0@[23] as nat),
    {
        decimal(resp.0[23] as u64)
    }

    fn reserved_1(resp: &ResponseMessage) -> (r: String)
        requires
            resp.0@.len() >= 36,
        ensures
            r@ == decimal_text(le_at(resp.0@, 24, 8)),
    {
        decimal(le_long(&resp.0, 24))
    }

    fn message_type(resp: &ResponseMessage) -> (r: String)
        requires
            resp.0@.len() >= 36,
        ensures
            r@ == decimal_text(le_at(resp.0@, 32, 2)),
    {
        decimal(le_short(&resp.0, 32, 2) as u64)
    }

    fn reserved_2(resp: &ResponseMessage) -> (r: String)
        requires
            resp.0@.len() >= 36,
        ensures
            r@ == decimal_text(be_value(resp.0@.subrange(34, 36))),
    {
        crate::convert::as_base10(extract_string(resp, 34, 2))
    }

    fn service(resp: &ResponseMessage) -> (r: String)
        requires
            resp.0@.len() >= 37,
        ensures
            r@ == decimal_text(resp.0@[36] as nat),
    {
        decimal(resp.0[36] as u64)
    }

    fn port(resp: &ResponseMessage) -> (r: String)
        requires
            resp.0@.len() >= 41,
        ensures
            r@ == decimal_text(le_at(resp.0@, 37, 4)),
    {
        decimal(le_bits(&resp.0, 37, 4) as u64)
    }

    fn unknown(resp: &ResponseMessage) -> (r: String)
        requires
            resp.0@.len() >= 41,
        ensures
            r@ == hex_text(resp.0@.subrange(41, resp.0@.len() as int)),
    {
        hex_from(&resp.0, 41)
    }

    fn body(resp: &ResponseMessage) -> (r: String)
        requires
            resp.0@.len() >= 36,
        ensures
            r@ == hex_text(resp.0@.subrange(36, resp.0@.len() as int)),
    {
        hex_from(&resp.0, 36)
    }

    fn hue(resp: &ResponseMessage) -> (r: String)
        requires
            resp.0@.len() >= 44,
        ensures
            r@ == decimal_text(le_at(resp.0@, 36, 2)),
    {
        decimal(le_bits(&resp.0, 36, 2) as u64)
    }

    fn saturation(resp: &ResponseMessage) -> (r: String)
        requires
            resp.0@.len() >= 44,
        ensures
            r@ == decimal_text(le_at(resp.0@, 38, 2)),
    {
        decimal(le_bits(&resp.0, 38, 2) as u64)
    }

    fn brightness(resp: &ResponseMessage) -> (r: String)
        requires
            resp.0@.len() >= 44,
        ensures
            r@ == decimal_text(le_at(resp.0@, 40, 2)),
    {
        decimal(le_bits(&resp.0, 40, 2) as u64)
    }

    fn kelvin(resp: &ResponseMessage) -> (r: String)
        requires
            resp.0@.len() >= 44,
        ensures
            r@ == decimal_text(le_at(resp.0@, 42, 2)),
    {
        decimal(le_bits(&resp.0, 42, 2) as u64)
    }
}

fn parse_header_string(resp: &ResponseMessage) -> (r: ResponseString)
    requires
        resp.0@.len() >= 36,
    ensures
        header_text_of(resp.0@, r),
        r.payload is Unsupported,
{
    ResponseString {
        size: ResponseMessage::size(resp),
        source: ResponseMessage::source(resp),
        mac_address: ResponseMessage::mac_address(resp),
        firmware: ResponseMessage::firmware(resp),
        sequence_number: ResponseMessage::sequence_number(resp),
        reserved_1: ResponseMessage::reserved_1(resp),
        message_type: ResponseMessage::message_type(resp),
        reserved_2: ResponseMessage::reserved_2(resp),
        payload: PayloadString::Unsupported,
    }
}

fn parse_payload_3_string(resp: &ResponseMessage) -> (r: PayloadString)
    requires
        resp.0@.len() >= 41,
        reply_type(resp.0@) == STATE_SERVICE,
    ensures
        payload_text_of(resp.0@, r),
{
    PayloadString::StateService(
        StateServicePayloadString {
            service: ResponseMessage::service(resp),
            port: ResponseMessage::port(resp),
            unknown: ResponseMessage::unknown(resp),
        },
    )
}

fn parse_payload_107_string(resp: &ResponseMessage) -> (r: PayloadString)
    requires
        resp.0@.len() >= 44,
        reply_type(resp.0@) == STATE,
    ensures
        payload_text_of(resp.0@, r),
{
    PayloadString::State_String(
        StatePayload_String {
            body: ResponseMessage::body(resp),
            hsbk: PayloadHSBK_String {
                hue: ResponseMessage::hue(resp),
                saturation: ResponseMessage::saturation(resp),
                brightness: ResponseMessage::brightness(resp),
                kelvin: ResponseMessage::kelvin(resp),
            },
        },
    )
}

/// Decodes a reply as `parse_response` does, rendering each number as
/// decimal text.
pub fn parse_response_string(resp_msg: ResponseMessage) -> (r: Result<ResponseString, DecodeError>)
    ensures
        match r {
            Ok(resp) => well_sized(resp_msg.0@) && header_text_of(resp_msg.0@, resp)
                && payload_text_of(resp_msg.0@, resp.payload),
            Err(e) => !well_sized(resp_msg.0@) && e == DecodeError::MalformedInput,
        },
        resp_msg.0@.len() < 36 ==> r is Err,
{
    if resp_msg.0.len() < HEADER_LEN {
        return Err(DecodeError::MalformedInput);
    }
    let mut resp = parse_header_string(&resp_msg);
    let message_type = le_short(&resp_msg.0, 32, 2);
    let n = resp_msg.0.len();
    let payload = if message_type == STATE_SERVICE {
        if n < 41 {
            return Err(DecodeError::MalformedInput);
        }
        parse_payload_3_string(&resp_msg)
    } else if message_type == STATE {
        if n < 44 {
            return Err(DecodeError::MalformedInput);
        }
        parse_payload_107_string(&resp_msg)
    } else {
        PayloadString::Unsupported
    };
    resp.payload = payload;
    Ok(resp)
}

} // verus!

//! The five requests a client sends: discovery, power get/set and colour
//! state get/set, each built from fixed header values and encoded.
use vstd::prelude::*;

use crate::colour::{
    HSB,
    brightness_percent_to_word,
    hue_degrees_to_word,
    hue_word,
    percent_word,
    saturation_percent_to_word,
};
use crate::request::{
    Frame,
    FrameAddress,
    GET_POWER,
    GET_SERVICE,
    GET_STATE,
    Header,
    Payload,
    ProtocolHeader,
    Request,
    RequestBin,
    SET_POWER,
    SET_STATE,
    encode,
    payload_wire,
};
use crate::response::le_at;
use crate::wire::{be_bytes, le_bytes, le_value, lemma_le_bytes_value, lemma_pow_values};

verus! {

/// The protocol number every request carries.
pub const PROTOCOL: u16 = 1024;

/// The source value requests carry to match their replies.
pub const SOURCE: u32 = 321;

/// The sequence number requests carry.
pub const SEQUENCE: u8 = 156;

/// `n` zero bytes.
pub open spec fn zeros(n: nat) -> Seq<u8> {
    Seq::new(n, |i: int| 0u8)
}

/// The encoding of a request with the fixed header values: origin 0,
/// addressable, protocol 1024, source 321, an all-zero target, no response
/// asked for, sequence 156, and `payload` already in wire order.
pub open spec fn request_wire(tagged: bool, ack: bool, message_type: u16, payload: Seq<u8>) -> Seq<
    u8,
> {
    let flags: nat = if tagged {
        0x3400
    } else {
        0x1400
    };
    let rest = le_bytes(flags, 2) + le_bytes(SOURCE as nat, 4) + zeros(14) + seq![
        if ack {
            2u8
        } else {
            0u8
        },
        SEQUENCE,
    ] + zeros(8) + le_bytes(message_type as nat, 2) + zeros(2) + payload;
    le_bytes(rest.len() + 2, 2) + rest
}

/// A request is 36 header bytes followed by its payload.
pub proof fn lemma_request_wire_layout(tagged: bool, ack: bool, message_type: u16, payload: Seq<u8>)
    requires
        payload.len() < 0x1_0000 - 36,
    ensures
        request_wire(tagged, ack, message_type, payload).len() == 36 + payload.len(),
        request_wire(tagged, ack, message_type, payload).subrange(36, 36 + payload.len() as int)
            == payload,
{
    lemma_pow_values();
    let flags: nat = if tagged {
        0x3400
    } else {
        0x1400
    };
    lemma_le_bytes_value(flags, 2);
    lemma_le_bytes_value(SOURCE as nat, 4);
    lemma_le_bytes_value(message_type as nat, 2);
    lemma_le_bytes_value(36 + payload.len(), 2);
    let w = request_wire(tagged, ack, message_type, payload);
    assert(w.subrange(36, 36 + payload.len() as int) =~= payload);
}

/// The wire payload of a set-state request.
pub open spec fn set_state_wire(hsb: HSB, kelvin: u16, duration: u32) -> Seq<u8> {
    seq![0u8] + le_bytes(hue_word(hsb.hue as nat), 2) + le_bytes(
        percent_word(hsb.saturation as nat),
        2,
    ) + le_bytes(percent_word(hsb.brightness as nat), 2) + le_bytes(kelvin as nat, 2) + le_bytes(
        duration as nat,
        4,
    )
}

/// Encoding a set-state request and reading its payload words back
/// little-endian, at the offsets where they stand, gives the hue,
/// saturation, brightness and kelvin words and the duration bit for bit.
pub proof fn lemma_set_state_words(hsb: HSB, kelvin: u16, duration: u32)
    requires
        hsb.in_range(),
    ensures
        ({
            let w = request_wire(false, true, SET_STATE, set_state_wire(hsb, kelvin, duration));
            &&& le_at(w, 37, 2) == hue_word(hsb.hue as nat)
            &&& le_at(w, 39, 2) == percent_word(hsb.saturation as nat)
            &&& le_at(w, 41, 2) == percent_word(hsb.brightness as nat)
            &&& le_at(w, 43, 2) == kelvin
            &&& le_at(w, 45, 4) == duration
        }),
{
    lemma_pow_values();
    let h = hue_word(hsb.hue as nat);
    let s = percent_word(hsb.saturation as nat);
    let b = percent_word(hsb.brightness as nat);
    assert(h <= 65535 && s <= 65535 && b <= 65535) by (nonlinear_arith)
        requires
            hsb.in_range(),
            h == (2 * hsb.hue * 65535 + 360) / 720,
            s == (2 * hsb.saturation * 65535 + 100) / 200,
            b == (2 * hsb.brightness * 65535 + 100) / 200,
    ;
    lemma_le_bytes_value(h, 2);
    lemma_le_bytes_value(s, 2);
    lemma_le_bytes_value(b, 2);
    lemma_le_bytes_value(kelvin as nat, 2);
    lemma_le_bytes_value(duration as nat, 4);
    let p = set_state_wire(hsb, kelvin, duration);
    assert(p.len() == 13);
    lemma_request_wire_layout(false, true, SET_STATE, p);
    let w = request_wire(false, true, SET_STATE, p);
    assert(w.subrange(37, 39) =~= p.subrange(1, 3));
    assert(w.subrange(39, 41) =~= p.subrange(3, 5));
    assert(w.subrange(41, 43) =~= p.subrange(5, 7));
    assert(w.subrange(43, 45) =~= p.subrange(7, 9));
    assert(w.subrange(45, 49) =~= p.subrange(9, 13));
    assert(p.subrange(1, 3) =~= le_bytes(h, 2));
    assert(p.subrange(3, 5) =~= le_bytes(s, 2));
    assert(p.subrange(5, 7) =~= le_bytes(b, 2));
    assert(p.subrange(7, 9) =~= le_bytes(kelvin as nat, 2));
    assert(p.subrange(9, 13) =~= le_bytes(duration as nat, 4));
}

/// The wire payload of a set-power request.
pub open spec fn set_power_wire(power_level: u16) -> Seq<u8> {
    seq![0u8] + le_bytes(power_level as nat, 2)
}

/// Encodes a request with the fixed header values.
fn build(tagged: bool, ack: bool, message_type: u16, payload: Vec<u8>) -> (r: RequestBin)
    requires
        (message_type == SET_STATE ==> payload@.len() >= 13),
        (message_type == SET_POWER ==> payload@.len() >= 3),
    ensures
        r.0@ == request_wire(tagged, ack, message_type, payload_wire(message_type, payload@)),
        r.0@.len() == 36 + payload_wire(message_type, payload@).len(),
        r.0@.subrange(36, r.0@.len() as int) == payload_wire(message_type, payload@),
        le_value(r.0@.subrange(0, 2)) == r.0@.len(),
{
    let msg = Request::new(
        Header::new(
            Frame::new(0, tagged, true, PROTOCOL, SOURCE),
            FrameAddress::new([0, 0, 0, 0, 0, 0, 0, 0], [0, 0, 0, 0, 0, 0], 0, ack, false, SEQUENCE),
            ProtocolHeader::new(0, message_type, 0),
        ),
        Payload(payload),
    );
    proof {
        lemma_pow_values();
        reveal_with_fuel(be_bytes, 9);
        let h = msg.header;
        assert(h.frame_address.target@.reverse() + h.frame_address.reserved@.reverse() =~= zeros(
            14,
        ));
        assert(le_bytes(0, 8) =~= zeros(8));
        assert(le_bytes(0, 2) =~= zeros(2));
        let p = payload_wire(message_type, msg.payload.0@);
        assert(encode(msg) =~= request_wire(tagged, ack, message_type, p));
        lemma_request_wire_layout(tagged, ack, message_type, p);
    }
    RequestBin::from(msg)
}

/// The request that finds devices: tagged, to every device, no payload.
pub fn get_service() -> (r: RequestBin)
    ensures
        r.0@ == request_wire(true, false, GET_SERVICE, Seq::empty()),
        r.0@.len() == 36,
        le_value(r.0@.subrange(0, 2)) == r.0@.len(),
{
    build(true, false, GET_SERVICE, Vec::new())
}

/// The request for a device's power level.
pub fn get_device_power_state() -> (r: RequestBin)
    ensures
        r.0@ == request_wire(false, false, GET_POWER, Seq::empty()),
        r.0@.len() == 36,
        le_value(r.0@.subrange(0, 2)) == r.0@.len(),
{
    build(false, false, GET_POWER, Vec::new())
}

/// The request that sets a device's power level, with acknowledgement.
pub fn set_device_power_state(power_level: u16) -> (r: RequestBin)
    ensures
        r.0@ == request_wire(false, true, SET_POWER, set_power_wire(power_level)),
        r.0@.len() == 39,
        le_value(r.0@.subrange(0, 2)) == r.0@.len(),
        le_value(r.0@.subrange(37, 39)) == power_level,
{
    let level = RequestBin::u16_to_u8_array(power_level);
    let mut payload: Vec<u8> = Vec::new();
    payload.push(0);
    payload.push(level[0]);
    payload.push(level[1]);
    let r = build(false, true, SET_POWER, payload);
    proof {
        lemma_pow_values();
        lemma_le_bytes_value(power_level as nat, 2);
        assert(payload_wire(SET_POWER, payload@) =~= set_power_wire(power_level));
        assert(r.0@.subrange(37, 39) =~= set_power_wire(power_level).subrange(1, 3));
        assert(set_power_wire(power_level).subrange(1, 3) =~= le_bytes(power_level as nat, 2));
    }
    r
}

/// The request that switches a device on (full power level).
pub fn set_device_on() -> (r: RequestBin)
    ensures
        r.0@ == request_wire(false, true, SET_POWER, set_power_wire(65535)),
{
    set_device_power_state(65535)
}

/// The request that switches a device off (zero power level).
pub fn set_device_off() -> (r: RequestBin)
    ensures
        r.0@ == request_wire(false, true, SET_POWER, set_power_wire(0)),
{
    set_device_power_state(0)
}

/// The request for a device's colour state.
pub fn get_device_state() -> (r: RequestBin)
    ensures
        r.0@ == request_wire(false, false, GET_STATE, Seq::empty()),
        r.0@.len() == 36,
        le_value(r.0@.subrange(0, 2)) == r.0@.len(),
{
    build(false, false, GET_STATE, Vec::new())
}

/// The request that sets a device's colour, with acknowledgement: the colour
/// as wire words, the kelvin, and the transition time in milliseconds.
pub fn set_device_state(hsb: &HSB, kelvin: u16, duration: u32) -> (r: RequestBin)
    requires
        hsb.in_range(),
    ensures
        r.0@ == request_wire(false, true, SET_STATE, set_state_wire(*hsb, kelvin, duration)),
        r.0@.len() == 49,
        le_value(r.0@.subrange(0, 2)) == r.0@.len(),
        le_at(r.0@, 37, 2) == hue_word(hsb.hue as nat),
        le_at(r.0@, 39, 2) == percent_word(hsb.saturation as nat),
        le_at(r.0@, 41, 2) == percent_word(hsb.brightness as nat),
        le_at(r.0@, 43, 2) == kelvin,
        le_at(r.0@, 45, 4) == duration,
{
    let hue = hue_degrees_to_word(hsb.hue);
    let sat = saturation_percent_to_word(hsb.saturation);
    let bri = brightness_percent_to_word(hsb.brightness);
    let kel = RequestBin::u16_to_u8_array(kelvin);
    let dur = RequestBin::u32_to_u8_array(duration);
    let mut payload: Vec<u8> = Vec::new();
    payload.push(0);
    payload.push(hue[0]);
    payload.push(hue[1]);
    payload.push(sat[0]);
    payload.push(sat[1]);
    payload.push(bri[0]);
    payload.push(bri[1]);
    payload.push(kel[0]);
    payload.push(kel[1]);
    payload.push(dur[0]);
    payload.push(dur[1]);
    payload.push(dur[2]);
    payload.push(dur[3]);
    let r = build(false, true, SET_STATE, payload);
    proof {
        lemma_pow_values();
        lemma_le_bytes_value(hue_word(hsb.hue as nat), 2);
        lemma_le_bytes_value(percent_word(hsb.saturation as nat), 2);
        lemma_le_bytes_value(percent_word(hsb.brightness as nat), 2);
        lemma_le_bytes_value(kelvin as nat, 2);
        lemma_le_bytes_value(duration as nat, 4);
        let q = payload@;
        assert(q.subrange(0, 1) =~= seq![0u8]);
        assert(q.subrange(1, 3) =~= hue@);
        assert(q.subrange(3, 5) =~= sat@);
        assert(q.subrange(5, 7) =~= bri@);
        assert(q.subrange(7, 9) =~= kel@);
        assert(q.subrange(9, 13) =~= dur@);
        assert(payload_wire(SET_STATE, q) =~= set_state_wire(*hsb, kelvin, duration));
        lemma_set_state_words(*hsb, kelvin, duration);
    }
    r
}

} // verus!

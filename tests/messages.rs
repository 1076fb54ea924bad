use rustylifx::colour::{get_colour, HSB};
use rustylifx::messages::{
    get_device_power_state, get_device_state, get_service, set_device_off, set_device_on,
    set_device_power_state, set_device_state,
};
use rustylifx::network::ensure_ip_is_broadcast;
use rustylifx::request::{
    Frame, FrameAddress, Header, Payload, ProtocolHeader, Request, RequestBin,
};
use rustylifx::response::{parse_response, Payload as ReplyPayload, ResponseData};

fn size_field(b: &[u8]) -> usize {
    b[0] as usize + 256 * b[1] as usize
}

#[test]
fn discovery_request_bytes() {
    let r = get_service().0;
    let mut expected = vec![36, 0, 0x00, 0x34, 0x41, 0x01, 0, 0];
    expected.extend_from_slice(&[0; 14]);
    expected.extend_from_slice(&[0, 156]);
    expected.extend_from_slice(&[0; 8]);
    expected.extend_from_slice(&[2, 0, 0, 0]);
    assert_eq!(r, expected);
}

#[test]
fn targeted_requests_are_untagged() {
    let power = get_device_power_state().0;
    assert_eq!(power.len(), 36);
    assert_eq!(&power[2..4], &[0x00, 0x14]);
    assert_eq!(&power[32..34], &[20, 0]);
    let state = get_device_state().0;
    assert_eq!(&state[32..34], &[101, 0]);
    assert_eq!(state[22], 0);
}

#[test]
fn set_power_requests() {
    let on = set_device_on().0;
    assert_eq!(on.len(), 39);
    assert_eq!(on[22], 2); // acknowledgement required
    assert_eq!(&on[32..34], &[21, 0]);
    assert_eq!(&on[36..39], &[0, 0xFF, 0xFF]);
    let off = set_device_off().0;
    assert_eq!(&off[36..39], &[0, 0, 0]);
    let half = set_device_power_state(0x1234).0;
    assert_eq!(&half[36..39], &[0, 0x34, 0x12]);
}

#[test]
fn set_state_request_bytes() {
    let hsb = HSB { hue: 120, saturation: 100, brightness: 50 };
    let r = set_device_state(&hsb, 3500, 1000).0;
    assert_eq!(r.len(), 49);
    assert_eq!(&r[0..2], &[49, 0]);
    assert_eq!(&r[32..34], &[102, 0]);
    assert_eq!(
        &r[36..49],
        &[0, 0x55, 0x55, 0xFF, 0xFF, 0x00, 0x80, 0xAC, 0x0D, 0xE8, 0x03, 0x00, 0x00]
    );
}

#[test]
fn set_state_words_read_back_little_endian() {
    let hsb = get_colour("cornflower");
    let r = set_device_state(&hsb, 2700, 250).0;
    let word = |i: usize| u16::from_le_bytes([r[i], r[i + 1]]);
    assert_eq!(word(37), u16::from_be_bytes(rustylifx::colour::hue_degrees_to_word(219)));
    assert_eq!(word(39), u16::from_be_bytes(rustylifx::colour::saturation_percent_to_word(79)));
    assert_eq!(word(41), u16::from_be_bytes(rustylifx::colour::brightness_percent_to_word(66)));
    assert_eq!(word(43), 2700);
    assert_eq!(u32::from_le_bytes([r[45], r[46], r[47], r[48]]), 250);
    // The decoder reads the same header back.
    let resp = parse_response(ResponseData(r.clone())).unwrap();
    assert_eq!(resp.size as usize, r.len());
    assert_eq!(resp.message_type, 102);
    assert_eq!(resp.source, 321);
    assert_eq!(resp.sequence_number, 156);
    assert!(matches!(resp.payload, ReplyPayload::Unsupported));
}

#[test]
fn size_field_equals_length() {
    let hsb = HSB { hue: 360, saturation: 0, brightness: 100 };
    for bytes in [
        get_service().0,
        get_device_power_state().0,
        set_device_on().0,
        get_device_state().0,
        set_device_state(&hsb, 9000, 0).0,
    ] {
        assert_eq!(size_field(&bytes), bytes.len());
    }
}

#[test]
fn encoder_packs_bit_fields() {
    let req = Request::new(
        Header::new(
            Frame::new(3, true, true, 1024, 0x0A0B0C0D),
            FrameAddress::new([1, 2, 3, 4, 5, 6, 0, 0], [7, 8, 9, 10, 11, 12], 0x3F, true, true, 9),
            ProtocolHeader::new(0x0102030405060708, 2, 0xBEEF),
        ),
        Payload::new(),
    );
    let b = RequestBin::from(req).0;
    assert_eq!(b.len(), 36);
    assert_eq!(&b[0..2], &[36, 0]);
    // origin 3, tagged, addressable, protocol 1024: 0b11_1_1_010000000000.
    assert_eq!(&b[2..4], &[0x00, 0xF4]);
    assert_eq!(&b[4..8], &[0x0D, 0x0C, 0x0B, 0x0A]);
    assert_eq!(&b[8..16], &[0, 0, 6, 5, 4, 3, 2, 1]);
    assert_eq!(&b[16..22], &[12, 11, 10, 9, 8, 7]);
    assert_eq!(b[22], 0xFF);
    assert_eq!(b[23], 9);
    assert_eq!(&b[24..32], &[8, 7, 6, 5, 4, 3, 2, 1]);
    assert_eq!(&b[32..36], &[2, 0, 0xEF, 0xBE]);
}

#[test]
fn encoder_ignores_payload_of_other_types() {
    let req = Request::new(
        Header::new(
            Frame::new(0, false, true, 1024, 1),
            FrameAddress::new([0; 8], [0; 6], 0, false, true, 1),
            ProtocolHeader::new(0, 101, 0),
        ),
        Payload(vec![1, 2, 3]),
    );
    let b = RequestBin::from(req).0;
    assert_eq!(b.len(), 36);
    assert_eq!(b[22], 1);
}

#[test]
fn byte_arrays_are_big_endian() {
    assert_eq!(RequestBin::u16_to_u8_array(0x1234), [0x12, 0x34]);
    assert_eq!(RequestBin::u32_to_u8_array(0x01020304), [1, 2, 3, 4]);
    assert_eq!(RequestBin::u64_to_u8_array(0x0102030405060708), [1, 2, 3, 4, 5, 6, 7, 8]);
}

#[test]
fn broadcast_address_of_subnet() {
    assert_eq!(ensure_ip_is_broadcast([192, 168, 0, 2]), [192, 168, 0, 255]);
    assert_eq!(ensure_ip_is_broadcast([10, 0, 0, 255]), [10, 0, 0, 255]);
}

use rustylifx::response::{
    parse_response, parse_response_string, DecodeError, Payload, PayloadString, ResponseData,
    ResponseMessage,
};

fn header(message_type: u16, total: usize) -> Vec<u8> {
    let mut b = vec![0u8; 36];
    b[0] = (total % 256) as u8;
    b[1] = (total / 256) as u8;
    b[4..8].copy_from_slice(&[0x41, 0x01, 0, 0]);
    b[8..16].copy_from_slice(&[209, 114, 214, 20, 224, 14, 0, 0]);
    b[16..22].copy_from_slice(&[76, 73, 70, 88, 86, 50]);
    b[23] = 156;
    b[24..32].copy_from_slice(&[1, 0, 0, 0, 1, 0, 0, 0]);
    b[32] = (message_type % 256) as u8;
    b[33] = (message_type / 256) as u8;
    b[34] = 1;
    b[35] = 2;
    b
}

fn discover_reply() -> Vec<u8> {
    let mut b = header(3, 43);
    b.push(3);
    b.extend_from_slice(&[0x7C, 0xDD, 0, 0]);
    b.extend_from_slice(&[0xAB, 0x01]);
    b
}

fn state_reply() -> Vec<u8> {
    let mut b = header(107, 46);
    b.extend_from_slice(&[0x55, 0x55, 0xFF, 0xFF, 0x00, 0x80, 0xAC, 0x0D, 0x00, 0x01]);
    b
}

#[test]
fn discover_reply_as_text() {
    let r = parse_response_string(ResponseMessage(discover_reply())).unwrap();
    assert_eq!(r.size, "43");
    assert_eq!(r.source, "321");
    assert_eq!(r.mac_address, "D1:72:D6:14:E0:0E:00:00");
    assert_eq!(r.firmware, "LIFXV2");
    assert_eq!(r.sequence_number, "156");
    assert_eq!(r.reserved_1, "4294967297");
    assert_eq!(r.message_type, "3");
    assert_eq!(r.reserved_2, "258");
    match r.payload {
        PayloadString::StateService(s) => {
            assert_eq!(s.service, "3");
            assert_eq!(s.port, "56700");
            assert_eq!(s.unknown, "AB:01");
        }
        _ => panic!("expected a discovery payload"),
    }
}

#[test]
fn discover_reply_as_numbers() {
    let r = parse_response(ResponseData(discover_reply())).unwrap();
    assert_eq!(r.size, 43);
    assert_eq!(r.source, 321);
    assert_eq!(r.mac_address, "D1:72:D6:14:E0:0E:00:00");
    assert_eq!(r.firmware, "LIFXV2");
    assert_eq!(r.sequence_number, 156);
    assert_eq!(r.reserved_1, 0x1_0000_0001);
    assert_eq!(r.message_type, 3);
    assert_eq!(r.reserved_2, 258);
    match r.payload {
        Payload::StateService(s) => {
            assert_eq!(s.service, 3);
            assert_eq!(s.port, 56700);
            assert_eq!(s.unknown, "AB:01");
        }
        _ => panic!("expected a discovery payload"),
    }
}

#[test]
fn state_reply_words() {
    let r = parse_response(ResponseData(state_reply())).unwrap();
    assert_eq!(r.message_type, 107);
    match r.payload {
        Payload::State(s) => {
            assert_eq!(s.body, "55:55:FF:FF:00:80:AC:0D:00:01");
            assert_eq!(s.hsbk.hue, 0x5555);
            assert_eq!(s.hsbk.saturation, 0xFFFF);
            assert_eq!(s.hsbk.brightness, 0x8000);
            assert_eq!(s.hsbk.kelvin, 3500);
        }
        _ => panic!("expected a state payload"),
    }
    let t = parse_response_string(ResponseMessage(state_reply())).unwrap();
    match t.payload {
        PayloadString::State_String(s) => {
            assert_eq!(s.body, "55:55:FF:FF:00:80:AC:0D:00:01");
            assert_eq!(s.hsbk.hue, "21845");
            assert_eq!(s.hsbk.saturation, "65535");
            assert_eq!(s.hsbk.brightness, "32768");
            assert_eq!(s.hsbk.kelvin, "3500");
        }
        _ => panic!("expected a state payload"),
    }
}

#[test]
fn unknown_message_type_keeps_header() {
    let mut b = header(45, 40);
    b.extend_from_slice(&[1, 2, 3, 4]);
    let r = parse_response(ResponseData(b.clone())).unwrap();
    assert_eq!(r.message_type, 45);
    assert!(matches!(r.payload, Payload::Unsupported));
    let t = parse_response_string(ResponseMessage(b)).unwrap();
    assert_eq!(t.message_type, "45");
    assert!(matches!(t.payload, PayloadString::Unsupported));
}

#[test]
fn short_input_is_malformed() {
    for n in 0..36 {
        let b = vec![0u8; n];
        assert_eq!(parse_response(ResponseData(b.clone())).err(), Some(DecodeError::MalformedInput));
        assert_eq!(
            parse_response_string(ResponseMessage(b)).err(),
            Some(DecodeError::MalformedInput)
        );
    }
    assert!(parse_response(ResponseData(vec![0u8; 36])).is_ok());
}

#[test]
fn short_payload_is_malformed() {
    let mut b = discover_reply();
    b.truncate(40);
    assert_eq!(parse_response(ResponseData(b.clone())).err(), Some(DecodeError::MalformedInput));
    assert_eq!(parse_response_string(ResponseMessage(b)).err(), Some(DecodeError::MalformedInput));
    let mut s = state_reply();
    s.truncate(43);
    assert_eq!(parse_response(ResponseData(s)).err(), Some(DecodeError::MalformedInput));
    let mut exact = discover_reply();
    exact.truncate(41);
    let r = parse_response(ResponseData(exact)).unwrap();
    match r.payload {
        Payload::StateService(s) => assert_eq!(s.unknown, ""),
        _ => panic!("expected a discovery payload"),
    }
}

use brew_server::protocol::{
    ascii_field, build_call_cause, build_call_control_empty, build_circular_call_setup,
    build_group_tx, build_subscriber_message, build_traffic_frame, decode_7bit_packed,
    decode_mnemonic, parse, parse_with_version, raw_peer_pair, BrewMessage, CallPayload,
    ConnVersion, ParseError, ACELP_CODED_FRAME_BYTES, CALL_ALERT, CALL_CONNECT_REQUEST,
    CALL_GROUP_TX, CALL_RELEASE, CALL_SETUP_ACCEPT, CALL_SETUP_REQUEST, CLASS_CALL_CONTROL,
    CLASS_FRAME, CLASS_SERVICE, FRAME_TRAFFIC_CHANNEL, SUB_AFFILIATE, SUB_REGISTER,
};
use uuid::Uuid;

#[test]
fn build_call_control_empty_round_trips_as_empty_payload() {
    let id = Uuid::new_v4();
    for state in [CALL_SETUP_ACCEPT, CALL_ALERT] {
        let wire = build_call_control_empty(state, &id.as_u128());
        let BrewMessage::CallControl(cc) = parse(&wire).unwrap() else { panic!() };
        assert_eq!(cc.call_state, state);
        assert_eq!(cc.identifier, id.as_u128());
        assert!(matches!(cc.payload, CallPayload::Empty));
    }
}

fn group_tx(id: &Uuid, source: u32, destination: u32, priority: u8) -> Vec<u8> {
    let mut p = vec![CLASS_CALL_CONTROL, CALL_GROUP_TX];
    p.extend_from_slice(id.as_bytes());
    p.extend_from_slice(&source.to_le_bytes());
    p.extend_from_slice(&destination.to_le_bytes());
    p.push(priority);
    p.push(0);
    p.extend_from_slice(&0u16.to_le_bytes());
    p
}

fn mnemonic(bits: u8, text: &[u8]) -> Vec<u8> {
    let mut m = vec![0x00u8, bits];
    m.extend_from_slice(text);
    m.resize(34, 0);
    m
}

#[test]
fn parses_group_tx() {
    let id = Uuid::new_v4();
    let p = group_tx(&id, 1001, 91, 3);
    let BrewMessage::CallControl(cc) = parse(&p).unwrap() else { panic!() };
    assert_eq!(cc.identifier, id.as_u128());
    let CallPayload::GroupTransmission(gt) = cc.payload else { panic!() };
    assert_eq!(gt.source, 1001);
    assert_eq!(gt.destination, 91);
}

#[test]
fn v0_group_tx_has_no_mnemonic_and_stays_v0() {
    let id = Uuid::new_v4();
    let p = group_tx(&id, 1001, 91, 3);
    let (msg, detected) = parse_with_version(&p, ConnVersion::V0).unwrap();
    assert_eq!(detected, ConnVersion::V0, "v0-length message must not promote");
    let BrewMessage::CallControl(cc) = msg else { panic!() };
    let CallPayload::GroupTransmission(gt) = cc.payload else { panic!() };
    assert_eq!(gt.mnemonic, None);
}

#[test]
fn v1_group_tx_promotes_connection() {
    let id = Uuid::new_v4();
    let mut p = group_tx(&id, 1001, 91, 3);
    p.extend_from_slice(&mnemonic(24, b"BOB"));
    let (msg, detected) = parse_with_version(&p, ConnVersion::V0).unwrap();
    assert_eq!(detected, ConnVersion::V1, "mnemonic tail must promote to v1");
    let BrewMessage::CallControl(cc) = msg else { panic!() };
    let CallPayload::GroupTransmission(gt) = cc.payload else { panic!() };
    assert_eq!(gt.mnemonic.as_deref(), Some("BOB"));
}

fn connect_request(id: &Uuid) -> Vec<u8> {
    let mut p = vec![CLASS_CALL_CONTROL, CALL_CONNECT_REQUEST];
    p.extend_from_slice(id.as_bytes());
    p.extend_from_slice(&5001u32.to_le_bytes());
    p.extend_from_slice(&6002u32.to_le_bytes());
    p.extend_from_slice(&[0u8; 32]);
    p.push(1);
    p.extend_from_slice(&[0u8; 10]);
    p
}

#[test]
fn connect_request_never_has_mnemonic() {
    let p = connect_request(&Uuid::new_v4());
    let (msg, detected) = parse_with_version(&p, ConnVersion::V1).unwrap();
    assert_eq!(detected, ConnVersion::V1);
    let BrewMessage::CallControl(cc) = msg else { panic!() };
    let CallPayload::CircularCall(c) = cc.payload else { panic!() };
    assert_eq!(c.mnemonic, None);
}

#[test]
fn header_seeded_v1_still_parses_v0_length_messages() {
    let p = group_tx(&Uuid::new_v4(), 7, 8, 1);
    let (msg, _detected) = parse_with_version(&p, ConnVersion::V1).unwrap();
    let BrewMessage::CallControl(cc) = msg else { panic!() };
    let CallPayload::GroupTransmission(gt) = cc.payload else { panic!() };
    assert_eq!(gt.mnemonic, None);
}

#[test]
fn parses_traffic_frame() {
    let id = Uuid::new_v4();
    let mut p = vec![CLASS_FRAME, FRAME_TRAFFIC_CHANNEL];
    p.extend_from_slice(id.as_bytes());
    p.extend_from_slice(&274u16.to_le_bytes());
    p.extend_from_slice(&[0x80; 36]);
    let BrewMessage::Frame(frame) = parse(&p).unwrap() else { panic!() };
    assert_eq!(frame.identifier, id.as_u128());
    assert_eq!(frame.length_bits, 274);
    assert_eq!(frame.data.len(), 36);
}

#[test]
fn decodes_8bit_mnemonic() {
    let mut field = vec![0x00, 40];
    field.extend_from_slice(b"HELLO");
    assert_eq!(decode_mnemonic(&field).as_deref(), Some("HELLO"));
}

#[test]
fn empty_mnemonic_is_none() {
    assert_eq!(decode_mnemonic(&[0x00, 0]), None);
    assert_eq!(decode_mnemonic(&[]), None);
    assert_eq!(decode_mnemonic(&[0x00; 34]), None);
}

#[test]
fn parses_group_tx_with_v1_mnemonic() {
    let id = Uuid::new_v4();
    let mut p = group_tx(&id, 1001, 91, 3);
    p.extend_from_slice(&mnemonic(24, b"BOB"));
    let BrewMessage::CallControl(cc) = parse(&p).unwrap() else { panic!() };
    let CallPayload::GroupTransmission(gt) = cc.payload else { panic!() };
    assert_eq!(gt.source, 1001);
    assert_eq!(gt.mnemonic.as_deref(), Some("BOB"));
}

#[test]
fn parses_circular_setup_request() {
    let id = Uuid::new_v4();
    let mut p = vec![CLASS_CALL_CONTROL, CALL_SETUP_REQUEST];
    p.extend_from_slice(id.as_bytes());
    p.extend_from_slice(&5001u32.to_le_bytes());
    p.extend_from_slice(&6002u32.to_le_bytes());
    let mut number = b"12345".to_vec();
    number.resize(32, 0);
    p.extend_from_slice(&number);
    p.push(2);
    p.extend_from_slice(&[0u8; 10]);
    p.extend_from_slice(&mnemonic(32, b"CTRL"));
    let BrewMessage::CallControl(cc) = parse(&p).unwrap() else { panic!() };
    let CallPayload::CircularCall(c) = cc.payload else { panic!() };
    assert_eq!(c.source, 5001);
    assert_eq!(c.destination, 6002);
    assert_eq!(c.number, "12345");
    assert_eq!(c.priority, 2);
    assert_eq!(c.mnemonic.as_deref(), Some("CTRL"));
}

#[test]
fn parses_connect_request_without_mnemonic() {
    let p = connect_request(&Uuid::new_v4());
    let BrewMessage::CallControl(cc) = parse(&p).unwrap() else { panic!() };
    let CallPayload::CircularCall(c) = cc.payload else { panic!() };
    assert_eq!(c.source, 5001);
    assert_eq!(c.mnemonic, None);
}

#[test]
fn seven_bit_mnemonics_are_unpacked() {
    // "AB" in seven bits each, least significant bit first.
    assert_eq!(decode_7bit_packed(&[0x41, 0x21], 14), "AB");
    assert_eq!(decode_7bit_packed(&[0x41, 0x21], usize::MAX), "AB\0");
    assert_eq!(decode_7bit_packed(&[], 700), "");
}

#[test]
fn identifiers_keep_their_byte_order() {
    let id: u128 = 0x00112233445566778899aabbccddeeff;
    let wire = build_call_cause(CALL_RELEASE, &id, 7);
    let bytes: Vec<u8> = (0..16).map(|i| (i * 0x11) as u8).collect();
    assert_eq!(&wire[2..18], bytes.as_slice());
    assert_eq!(wire[18], 7);
    let BrewMessage::CallControl(cc) = parse(&wire).unwrap() else { panic!() };
    assert_eq!(cc.identifier, id);
    assert!(matches!(cc.payload, CallPayload::Cause(7)));
}

#[test]
fn built_group_transmission_reads_back() {
    let id = Uuid::new_v4().as_u128();
    let BrewMessage::CallControl(cc) = parse(&build_group_tx(&id, 1, 2, 3)).unwrap() else {
        panic!()
    };
    assert_eq!(raw_peer_pair(&cc.payload), None);
    let CallPayload::GroupTransmission(gt) = cc.payload else { panic!() };
    assert_eq!((gt.source, gt.destination, gt.priority), (1, 2, 3));
}

#[test]
fn built_private_setup_reads_back() {
    let id = Uuid::new_v4().as_u128();
    let wire = build_circular_call_setup(&id, 90, 91, 4);
    let BrewMessage::CallControl(cc) = parse(&wire).unwrap() else { panic!() };
    assert_eq!(cc.call_state, CALL_SETUP_REQUEST);
    let CallPayload::CircularCall(c) = cc.payload else { panic!() };
    assert_eq!((c.source, c.destination, c.priority), (90, 91, 4));
}

#[test]
fn built_traffic_frame_reads_back() {
    let id = Uuid::new_v4().as_u128();
    let coded = [0x5Au8; ACELP_CODED_FRAME_BYTES];
    let BrewMessage::Frame(f) = parse(&build_traffic_frame(&id, &coded)).unwrap() else {
        panic!()
    };
    assert_eq!(f.identifier, id);
    assert_eq!(f.data, coded.to_vec());
}

#[test]
fn built_subscriber_message_reads_back() {
    let BrewMessage::Subscriber(s) = parse(&build_subscriber_message(SUB_AFFILIATE, 90, &[7, 9]))
        .unwrap()
    else {
        panic!()
    };
    assert_eq!((s.msg_type, s.issi), (SUB_AFFILIATE, 90));
    assert_eq!(s.groups, vec![7, 9]);
    let BrewMessage::Subscriber(s) = parse(&build_subscriber_message(SUB_REGISTER, 90, &[]))
        .unwrap()
    else {
        panic!()
    };
    assert!(s.groups.is_empty());
}

#[test]
fn malformed_packets_are_told_apart() {
    assert!(matches!(parse(&[]), Err(ParseError::TooShort(0))));
    assert!(matches!(parse(&[0x00, 0x01]), Err(ParseError::UnknownClass(0))));
    assert!(matches!(parse(&[CLASS_FRAME, 0, 1, 2]), Err(ParseError::TooShort(4))));
    assert!(matches!(parse(&[CLASS_SERVICE, 0, 0xff, 0]), Err(ParseError::InvalidUtf8)));
    assert_eq!(ParseError::TooShort(4).message(), "Brew packet too short: 4 bytes");
    assert_eq!(ParseError::UnknownClass(0x3c).message(), "unknown Brew class 0x3c");
    assert_eq!(ParseError::InvalidUtf8.message(), "invalid UTF-8 service payload");
}

#[test]
fn fields_end_at_the_first_zero() {
    assert_eq!(ascii_field(b"12345\0\0678"), "12345");
}

#[test]
fn dialled_numbers_are_read() {
    let mut p = build_circular_call_setup(&5, 90, 0, 0);
    p[26..33].copy_from_slice(b"9555123");
    let BrewMessage::CallControl(cc) = parse(&p).unwrap() else { panic!() };
    let CallPayload::CircularCall(c) = cc.payload else { panic!() };
    assert_eq!(c.number, "9555123");
    let p = build_circular_call_setup(&5, 90, 0, 0);
    let BrewMessage::CallControl(cc) = parse(&p).unwrap() else { panic!() };
    let CallPayload::CircularCall(c) = cc.payload else { panic!() };
    assert_eq!(c.number, "");
}

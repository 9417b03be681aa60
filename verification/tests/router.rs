use brew_server::ids::Id;
use brew_server::protocol::{
    build_call_cause, build_call_control_empty, build_group_tx, build_subscriber_message, parse, BrewMessage, CallPayload,
    ConnVersion, CALL_ALERT, CALL_CONNECT_CONFIRM, CALL_CONNECT_REQUEST, CALL_GROUP_IDLE, CALL_RELEASE, CALL_SETUP_REQUEST, CALL_SHORT_TRANSFER,
    CLASS_CALL_CONTROL, CLASS_FRAME, FRAME_SDS_REPORT, FRAME_SDS_TRANSFER, FRAME_TRAFFIC_CHANNEL,
    SUB_AFFILIATE, SUB_DEREGISTER, SUB_REGISTER, build_circular_call_setup,
};
use brew_server::registrations::RegKind;
use brew_server::router::{force_end, handle_packet, Event, Routed, RoutingPolicy};
use brew_server::server::connect_client;
use brew_server::sip::bridge::{
    admit_group, admit_private, confirm_answer, join_call, outbound_answered, outbound_destination,
    ring_subscriber, seize_group, BrewBridge, BrewCallLink, BridgedLeg, Destination, DialogBye,
    Fresh, Incoming, OutboundTarget, Registration,
};
use brew_server::sip::message::{Method, SipMessage};
use brew_server::state::{ClientMode, Inner};

const A: Id = 1;
const B: Id = 2;
const C: Id = 3;

fn world() -> Inner {
    let mut inner = Inner::default();
    for id in [A, B, C] {
        connect_client(&mut inner, id, ClientMode::Basestation, ConnVersion::V0, None, 0, None);
    }
    inner
}

fn policy() -> RoutingPolicy {
    RoutingPolicy::default()
}

fn send(inner: &mut Inner, from: Id, packet: &[u8]) -> Routed {
    handle_packet(inner, &policy(), 100, from, packet)
}

/// Who gets a packet.
fn receivers(r: &Routed, packet: &[u8]) -> Vec<Id> {
    let mut out = Vec::new();
    for b in &r.sent {
        if b.packet == packet {
            for i in 0..b.to.len() {
                out.push(*b.to.member(i));
            }
        }
    }
    out.sort();
    out
}

fn register(inner: &mut Inner, client: Id, issi: u32, groups: &[u32]) {
    send(inner, client, &build_subscriber_message(SUB_REGISTER, issi, &[]));
    if !groups.is_empty() {
        send(inner, client, &build_subscriber_message(SUB_AFFILIATE, issi, groups));
    }
}

fn framed(class: u8, kind: u8, id: Id, rest: &[u8]) -> Vec<u8> {
    let mut p = vec![class, kind];
    p.extend_from_slice(&id.to_be_bytes());
    p.extend_from_slice(rest);
    p
}

#[test]
fn group_calls_reach_the_group() {
    let mut inner = world();
    register(&mut inner, A, 90, &[7]);
    register(&mut inner, B, 91, &[7]);
    register(&mut inner, C, 92, &[8]);
    let tx = build_group_tx(&50, 90, 7, 3);
    let r = send(&mut inner, A, &tx);
    assert_eq!(receivers(&r, &tx), vec![B], "not echoed, and not to another group");
    assert!(matches!(r.events[0], Event::CallStarted { id: 50, source: 90, destination: 7, .. }));
    let voice = framed(CLASS_FRAME, FRAME_TRAFFIC_CHANNEL, 50, &[0u8; 20]);
    let r = send(&mut inner, A, &voice);
    assert_eq!(receivers(&r, &voice), vec![B]);
    let idle = build_call_cause(CALL_GROUP_IDLE, &50, 0);
    let r = send(&mut inner, A, &idle);
    assert_eq!(receivers(&r, &idle), vec![B]);
    assert!(inner.calls.is_empty());
    assert!(inner.group_floor.is_empty());
}

#[test]
fn floors_are_held_and_taken() {
    let mut inner = world();
    register(&mut inner, A, 90, &[7]);
    register(&mut inner, B, 91, &[7]);
    send(&mut inner, A, &build_group_tx(&50, 90, 7, 3));
    let same = build_group_tx(&51, 91, 7, 3);
    let r = send(&mut inner, B, &same);
    assert_eq!(*inner.group_floor.get(&7).unwrap(), 50, "equal priority does not preempt");
    assert!(receivers(&r, &same).is_empty());
    let higher = build_group_tx(&52, 91, 7, 4);
    let r = send(&mut inner, B, &higher);
    assert_eq!(*inner.group_floor.get(&7).unwrap(), 52);
    assert_eq!(receivers(&r, &higher), vec![A]);
    assert!(inner.calls.get(&50).is_none());
}

#[test]
fn private_calls_reach_the_callee() {
    let mut inner = world();
    register(&mut inner, A, 90, &[]);
    register(&mut inner, B, 91, &[]);
    let setup = build_circular_call_setup(&60, 90, 91, 1);
    let r = send(&mut inner, A, &setup);
    assert_eq!(receivers(&r, &setup), vec![B]);
    let release = build_call_cause(CALL_RELEASE, &60, 16);
    let r = send(&mut inner, B, &release);
    assert_eq!(receivers(&r, &release), vec![A]);
    assert!(inner.calls.is_empty());
}

#[test]
fn unknown_callees_are_offered_to_sip() {
    let mut inner = world();
    register(&mut inner, A, 90, &[]);
    let r = send(&mut inner, A, &build_circular_call_setup(&61, 90, 5551234, 1));
    assert!(r.sent.is_empty());
    let Event::OfferSip { id, client, issi, dialled } = &r.events[0] else { panic!() };
    assert_eq!((*id, *client, *issi, dialled.as_str()), (61, A, 90, "5551234"));
}

#[test]
fn messages_follow_their_header() {
    let mut inner = world();
    register(&mut inner, A, 90, &[]);
    register(&mut inner, B, 91, &[]);
    let mut rest = 90u32.to_le_bytes().to_vec();
    rest.extend_from_slice(&91u32.to_le_bytes());
    rest.extend_from_slice(&[0u8; 40]);
    let header = framed(CLASS_CALL_CONTROL, CALL_SHORT_TRANSFER, 70, &rest);
    let r = send(&mut inner, A, &header);
    assert_eq!(receivers(&r, &header), vec![B]);
    assert!(matches!(r.events[0], Event::Sds { id: 70, source: 90, destination: 91 }));
    let body = framed(CLASS_FRAME, FRAME_SDS_TRANSFER, 70, &[8, 0, 1]);
    assert_eq!(receivers(&send(&mut inner, A, &body), &body), vec![B]);
    assert!(send(&mut inner, C, &body).sent.is_empty(), "strangers are ignored");
    let report = framed(CLASS_FRAME, FRAME_SDS_REPORT, 70, &[8, 0, 0]);
    let r = send(&mut inner, B, &report);
    assert_eq!(receivers(&r, &report), vec![A]);
    assert!(matches!(r.events[0], Event::SdsReport { id: 70 }));
}

#[test]
fn positions_in_messages_are_noticed() {
    let mut inner = world();
    register(&mut inner, A, 90, &[]);
    register(&mut inner, B, 91, &[]);
    let mut rest = 90u32.to_le_bytes().to_vec();
    rest.extend_from_slice(&91u32.to_le_bytes());
    rest.extend_from_slice(&[0u8; 40]);
    send(&mut inner, A, &framed(CLASS_CALL_CONTROL, CALL_SHORT_TRANSFER, 70, &rest));
    let lip = [0x0a, 0x01, 0x0e, 0x62, 0x39, 0xb0, 0x43, 0x9a, 0xff, 0xe0, 0x20];
    let mut body = vec![88, 0, 0x01, 0x02];
    body.extend_from_slice(&lip);
    let r = send(&mut inner, A, &framed(CLASS_FRAME, FRAME_SDS_TRANSFER, 70, &body));
    assert_eq!(r.sent.len(), 1);
    let Event::Position { issi, fix } = &r.events[0] else { panic!() };
    assert_eq!(*issi, 90);
    assert!((fix.lat as f64 * 180.0 / 16_777_216.0 - 37.9920).abs() < 0.01);
    let mut body = vec![88, 0, 0x82, 0x04];
    body.extend_from_slice(b"44.4353, 26.1092");
    let r = send(&mut inner, A, &framed(CLASS_FRAME, FRAME_SDS_TRANSFER, 70, &body));
    assert!(matches!(&r.events[0], Event::Beacon { issi: 90, text } if text == "44.4353, 26.1092"));
    let r = send(&mut inner, A, &framed(CLASS_FRAME, FRAME_SDS_TRANSFER, 70, b"..hello world"));
    assert!(r.events.is_empty());
}

#[test]
fn registrations_are_told_to_the_others() {
    let mut inner = world();
    connect_client(&mut inner, 4, ClientMode::Terminal, ConnVersion::V0, None, 0, None);
    let p = build_subscriber_message(SUB_REGISTER, 90, &[]);
    let r = send(&mut inner, A, &p);
    let got = receivers(&r, &p);
    assert!(!got.contains(&A));
    assert!(!got.contains(&4), "terminals are not told");
    assert_eq!(inner.subscribers.get(&90).unwrap().client_id, A);
    send(&mut inner, A, &build_subscriber_message(SUB_DEREGISTER, 90, &[]));
    assert!(inner.subscribers.is_empty());
}

#[test]
fn malformed_packets_change_nothing() {
    let mut inner = world();
    let r = send(&mut inner, A, &[0x00, 0x01, 0x02]);
    assert!(r.sent.is_empty() && r.events.is_empty());
}

#[test]
fn phones_can_call_radios() {
    let mut inner = world();
    register(&mut inner, B, 91, &[7]);
    assert_eq!(admit_private(&inner, 90).unwrap_err().code, 480);
    assert_eq!(admit_private(&inner, 91).unwrap(), B);
    let r = ring_subscriber(&mut inner, B, 91, 80, 900, 5, 6);
    assert_eq!(r.sent.len(), 1);
    let BrewMessage::CallControl(cc) = parse(&r.sent[0].packet).unwrap() else { panic!() };
    assert_eq!(cc.call_state, CALL_SETUP_REQUEST);
    let CallPayload::CircularCall(c) = cc.payload else { panic!() };
    assert_eq!(c.destination, 91);
    let mut answer = framed(CLASS_CALL_CONTROL, CALL_CONNECT_REQUEST, 80, &[0u8; 51]);
    let confirmed = confirm_answer(&inner, 900, &answer);
    let confirmation = build_call_control_empty(CALL_CONNECT_CONFIRM, &80);
    assert_eq!(receivers(&confirmed, &confirmation), vec![B]);
    answer[1] = CALL_ALERT;
    assert!(confirm_answer(&inner, 900, &answer).sent.is_empty());
    let mut bridge = BrewBridge::new();
    bridge.legs.insert(
        "cid".into(),
        BridgedLeg { virtual_client: 900, brew_call_id: 80, group: None, bye: None },
    );
    assert_eq!(bridge.find_by_brew_call(80).unwrap().0, "cid");
    let r = bridge.teardown(&mut inner, "cid");
    assert_eq!(r.sent.len(), 1);
    assert!(inner.calls.is_empty());
    assert!(!inner.clients.contains_key(&900));
    assert!(bridge.legs.is_empty());
}

#[test]
fn radios_can_hang_up_on_phones() {
    let mut inner = world();
    register(&mut inner, B, 91, &[]);
    ring_subscriber(&mut inner, B, 91, 80, 900, 5, 6);
    let mut bridge = BrewBridge::new();
    let dialog = DialogBye {
        request_uri: "sip:1001@10.0.0.5".into(),
        target_addr: "10.0.0.5:5060".into(),
        from: "<sip:91@brew.example>;tag=srv".into(),
        to: "<sip:1001@brew.example>;tag=aaa".into(),
    };
    bridge.legs.insert(
        "cid".into(),
        BridgedLeg { virtual_client: 900, brew_call_id: 80, group: None, bye: Some(dialog) },
    );
    bridge.legs.insert(
        "silent".into(),
        BridgedLeg { virtual_client: 901, brew_call_id: 81, group: None, bye: None },
    );

    let (farewell, told) = bridge.teardown_by_brew_call(&mut inner, 79, "brew.example", 3);
    assert!(farewell.is_none() && told.sent.is_empty());
    assert!(inner.clients.contains_key(&900));

    send(&mut inner, B, &build_call_cause(CALL_RELEASE, &80, 0));
    assert!(inner.calls.is_empty());
    let (farewell, told) = bridge.teardown_by_brew_call(&mut inner, 80, "brew.example", 3);
    let farewell = farewell.unwrap();
    assert_eq!(farewell.target_addr, "10.0.0.5:5060");
    assert_eq!(farewell.request.method(), Some(&Method::Bye));
    assert_eq!(farewell.request.call_id(), Some("cid"));
    assert!(told.sent.is_empty());
    assert!(!inner.clients.contains_key(&900));
    assert!(bridge.find_by_brew_call(80).is_none());

    let (farewell, _) = bridge.teardown_by_brew_call(&mut inner, 81, "brew.example", 4);
    assert!(farewell.is_none());
    assert!(bridge.legs.is_empty());
}

#[test]
fn phones_can_call_groups() {
    let mut inner = world();
    register(&mut inner, B, 91, &[7]);
    assert!(admit_group(&inner, &policy(), 7).is_none());
    let r = seize_group(&mut inner, 7, 81, 901, 5, 6);
    assert_eq!(*inner.group_floor.get(&7).unwrap(), 81);
    assert_eq!(receivers(&r, &r.sent[0].packet), vec![B]);
    let mut strict = policy();
    strict.fallback_broadcast_when_no_affiliations = false;
    assert!(admit_group(&inner, &strict, 7).is_none());
    assert_eq!(admit_group(&inner, &strict, 8).unwrap().code, 480);
}

#[test]
fn radios_can_call_phones() {
    let mut inner = world();
    register(&mut inner, A, 90, &[]);
    join_call(&mut inner, BrewCallLink { call_id: 82, client: A, issi: 90 }, 902, 5, 6);
    let r = outbound_answered(&inner, 82);
    assert_eq!(receivers(&r, &r.sent[0].packet), vec![A]);
}

#[test]
fn terminals_registrations_are_noted() {
    let mut inner = world();
    connect_client(&mut inner, 4, ClientMode::Terminal, ConnVersion::V0, None, 0, None);
    let r = send(&mut inner, 4, &build_subscriber_message(SUB_REGISTER, 90, &[]));
    assert!(matches!(r.events[0], Event::Registration { issi: 90, kind: RegKind::Register }));
    let r = send(&mut inner, 4, &build_subscriber_message(SUB_DEREGISTER, 90, &[]));
    assert!(matches!(r.events[0], Event::Registration { issi: 90, kind: RegKind::Deregister }));
    let r = send(&mut inner, A, &build_subscriber_message(SUB_REGISTER, 91, &[]));
    assert!(r.events.is_empty());
}

#[test]
fn long_calls_are_ended() {
    let second: u64 = 1_000_000_000;
    let mut inner = world();
    register(&mut inner, A, 90, &[7]);
    register(&mut inner, B, 91, &[7]);
    handle_packet(&mut inner, &policy(), 5 * second, A, &build_group_tx(&50, 90, 7, 3));
    assert!(inner.overdue_calls(15 * second, 10).is_empty());
    assert!(inner.overdue_calls(1000 * second, 0).is_empty(), "zero is no limit");
    let late = inner.overdue_calls(15 * second + 1, 10);
    assert_eq!((late.len(), *late.member(0)), (1, 50));
    let r = force_end(&mut inner, 50);
    assert_eq!(receivers(&r, &build_call_cause(CALL_GROUP_IDLE, &50, 0)), vec![A, B]);
    assert!(matches!(r.events[0], Event::CallEnded { id: 50 }));
    assert!(inner.calls.is_empty() && inner.group_floor.is_empty());
    assert!(force_end(&mut inner, 50).sent.is_empty());
}

fn incoming(call_id: &str) -> Incoming {
    let invite = "INVITE sip:91@brew.example SIP/2.0\r\nContact: <sip:1001@10.0.0.5>\r\n\r\n";
    let mut base = SipMessage::new_response(200, "OK");
    base.push_header("From", "<sip:1001@brew.example>;tag=aaa");
    base.push_header("To", "<sip:91@brew.example>;tag=srv");
    Incoming {
        request: SipMessage::parse(invite.as_bytes()).unwrap(),
        base,
        caller: "10.0.0.5:5060".into(),
        call_id: call_id.into(),
    }
}

fn fresh(call: Id, virtual_client: Id) -> Fresh {
    Fresh { call, virtual_client, now_ms: 5, now: 6 }
}

#[test]
fn bridged_calls_are_filed_and_undone() {
    let mut inner = world();
    register(&mut inner, B, 91, &[7]);
    let mut bridge = BrewBridge::new();
    let sdp = || Some(b"v=0".to_vec());

    let refused = bridge.sip_to_brew_private(&mut inner, incoming("a"), "h", sdp(), 90, fresh(80, 900));
    assert_eq!(refused.unwrap_err().code, 480);
    let refused = bridge.sip_to_brew_private(&mut inner, incoming("a"), "h", None, 91, fresh(80, 900));
    let refused = refused.unwrap_err();
    assert_eq!((refused.code, refused.reason), (500, "Server Internal Error"));
    assert!(bridge.legs.is_empty() && inner.calls.is_empty());

    let (ok, told) = bridge
        .sip_to_brew_private(&mut inner, incoming("a"), "h", sdp(), 91, fresh(80, 900))
        .unwrap();
    assert_eq!(ok.status_code(), Some(200));
    assert_eq!(ok.body, b"v=0");
    assert_eq!(receivers(&told, &told.sent[0].packet), vec![B]);
    let leg = bridge.legs.get(&"a".to_string()).unwrap();
    assert_eq!((leg.virtual_client, leg.brew_call_id, leg.group), (900, 80, None));
    let bye = leg.bye.as_ref().unwrap();
    assert_eq!(bye.request_uri, "sip:1001@10.0.0.5");
    assert_eq!(bye.target_addr, "10.0.0.5:5060");
    bridge.teardown(&mut inner, "a");
    assert!(inner.calls.is_empty() && !inner.clients.contains_key(&900));

    let mut strict = policy();
    strict.fallback_broadcast_when_no_affiliations = false;
    let r = bridge.sip_to_brew_group(&mut inner, incoming("b"), "h", sdp(), &strict, 8, fresh(81, 901));
    assert_eq!(r.unwrap_err().code, 480);
    let r = bridge.sip_to_brew_group(&mut inner, incoming("b"), "h", None, &strict, 7, fresh(81, 901));
    assert_eq!(r.unwrap_err().code, 500);
    bridge
        .sip_to_brew_group(&mut inner, incoming("b"), "h", sdp(), &strict, 7, fresh(81, 901))
        .unwrap();
    assert_eq!(bridge.legs.get(&"b".to_string()).unwrap().group, Some(7));
    assert_eq!(inner.group_clients.get(&7).unwrap().len(), 2);
    bridge.teardown(&mut inner, "b");
    assert_eq!(inner.group_clients.get(&7).unwrap().len(), 1);
    assert!(inner.group_clients.get(&7).unwrap().contains(&B));
    assert!(inner.group_floor.is_empty());
}

#[test]
fn calls_toward_sip_are_filed() {
    let mut inner = world();
    register(&mut inner, A, 90, &[]);
    let mut bridge = BrewBridge::new();
    let link = BrewCallLink { call_id: 82, client: A, issi: 90 };
    let to = Destination { uri: "sip:5551234@pbx".into(), addr: "10.0.0.5:5060".into() };
    assert!(bridge.place_outbound(&mut inner, link, &to, "c", "h", 1, 2, None, 902, 5, 6).is_none());
    assert!(bridge.legs.is_empty() && inner.calls.is_empty());
    let sdp = Some(b"v=0".to_vec());
    let invite = bridge.place_outbound(&mut inner, link, &to, "c", "h", 1, 2, sdp, 902, 5, 6).unwrap();
    assert_eq!(invite.method(), Some(&Method::Invite));
    assert_eq!(invite.call_id(), Some("c"));
    let bye = bridge.find_by_brew_call(82).unwrap().1.unwrap();
    assert_eq!(bye.target_addr, "10.0.0.5:5060");
    assert_eq!(invite.header("from"), Some(bye.from.as_str()));
    let second: u64 = 1_000_000_000;
    assert!(bridge.overdue_legs(&inner, 10 * second, 0).is_empty());
    assert!(bridge.overdue_legs(&inner, 10 * second, 10).is_empty());
    assert!(bridge.overdue_legs(&inner, 10 * second, 9).contains(&"c".to_string()));
    assert_eq!(brew_server::config::SipConfig::default().max_call_duration_seconds, 14400);
    bridge.teardown(&mut inner, "c");
    assert!(inner.calls.is_empty() && !inner.clients.contains_key(&902));
}

#[test]
fn calls_need_a_destination() {
    let extension = || OutboundTarget::Extension { aor: "1001".into() };
    let trunk = || OutboundTarget::Trunk {
        trunk: "pbx".into(),
        remote_host: "pbx:5060".into(),
        uri: "sip:5@pbx".into(),
    };
    let addr = |a: &str| Some(a.to_string());
    assert!(outbound_destination(extension(), None, addr("x"), addr("y")).is_none());
    let reg = Registration { contact: "sip:1001@10.0.0.7".into(), source: "10.0.0.7:5060".into() };
    let d = outbound_destination(extension(), Some(reg), None, None).unwrap();
    assert_eq!((d.uri.as_str(), d.addr.as_str()), ("sip:1001@10.0.0.7", "10.0.0.7:5060"));
    assert!(outbound_destination(trunk(), None, None, None).is_none());
    let d = outbound_destination(trunk(), None, addr("1.1.1.1:5060"), addr("2.2.2.2:5060")).unwrap();
    assert_eq!((d.uri.as_str(), d.addr.as_str()), ("sip:5@pbx", "1.1.1.1:5060"));
    let d = outbound_destination(trunk(), None, None, addr("2.2.2.2:5060")).unwrap();
    assert_eq!(d.addr, "2.2.2.2:5060");
}

use brew_server::config::{RouteEndpoint, SipTrunkConfig, TrunkDirection, VoiceRouteConfig};
use brew_server::sip::auth::{
    build_authorization, build_challenge, compute_response, parse_params, verify_authorization,
};
use brew_server::sip::bridge::{
    accept_call, bye_request, dialog_bye, outbound_call_id, outbound_invite, brew_to_sip,
    transcoder_payload_type, OutboundTarget,
};
use brew_server::sip::message::{
    extract_uri, parse_tag, uri_host, uri_user, Method, SipMessage, StartLine,
};
use brew_server::sip::routing::{pattern_matches, resolve, CallOrigin, LegEndpoint};
use brew_server::table::Table;

#[test]
fn uac_answer_verifies_at_uas() {
    let realm = "brew-server";
    let nonce = "deadbeefcafef00d";
    let password = "s3cret";
    let username = "1001";
    let method = "REGISTER";
    let uri = "sip:brew.example";

    let challenge = parse_params(&build_challenge(realm, nonce));
    let auth = build_authorization(&challenge, username, password, method, uri, "0a0a0a0a", 1);
    assert!(verify_authorization(&auth, password, method, nonce));
    assert!(!verify_authorization(&auth, "wrong", method, nonce));
    assert!(!verify_authorization(&auth, password, method, "othernonce"));
}

#[test]
fn parse_params_handles_quoted_commas() {
    let h = "Digest realm=\"a,b\", nonce=\"xyz\", qop=\"auth\"";
    let p = parse_params(h);
    assert_eq!(p.get(&"realm".to_string()).unwrap(), "a,b");
    assert_eq!(p.get(&"nonce".to_string()).unwrap(), "xyz");
}

#[test]
fn digest_matches_the_published_example() {
    // The example of RFC 2617, section 3.5.
    let response = compute_response(
        "Mufasa",
        "Circle Of Life",
        "testrealm@host.com",
        "GET",
        "/dir/index.html",
        "dcd98b7102dd2f0e8b11d0f600bfb0c093",
        Some("auth"),
        Some("00000001"),
        Some("0a4f113b"),
    );
    assert_eq!(response, "6629fae49393a05397450978507c4ef1");
}

#[test]
fn digest_without_qop_leaves_out_the_counter() {
    let response = compute_response(
        "Mufasa",
        "Circle Of Life",
        "testrealm@host.com",
        "GET",
        "/dir/index.html",
        "dcd98b7102dd2f0e8b11d0f600bfb0c093",
        None,
        None,
        None,
    );
    assert_eq!(response, "670fd8c2df070c60b045671b8b24ff02");
}

#[test]
fn challenges_have_their_form() {
    assert_eq!(
        build_challenge("brew-server", "abc"),
        "Digest realm=\"brew-server\", nonce=\"abc\", qop=\"auth\", \
opaque=\"be9e2adbddad8869dfffc1a7b21e8f6a\", algorithm=MD5"
    );
}

const REGISTER: &str = "REGISTER sip:brew.example SIP/2.0\r\n\
Via: SIP/2.0/UDP 10.0.0.5:5060;branch=z9hG4bK-abc\r\n\
Max-Forwards: 70\r\n\
From: \"Alice\" <sip:1001@brew.example>;tag=aaa\r\n\
To: <sip:1001@brew.example>\r\n\
Call-ID: call-123\r\n\
CSeq: 1 REGISTER\r\n\
Contact: <sip:1001@10.0.0.5:5060>\r\n\
Expires: 3600\r\n\
Content-Length: 0\r\n\r\n";

#[test]
fn parses_register() {
    let m = SipMessage::parse(REGISTER.as_bytes()).unwrap();
    assert_eq!(m.method(), Some(&Method::Register));
    assert_eq!(m.call_id(), Some("call-123"));
    assert_eq!(m.cseq(), Some((1, "REGISTER".to_string())));
    assert_eq!(m.from_tag().as_deref(), Some("aaa"));
    assert_eq!(m.to_tag(), None);
    assert_eq!(m.expires(), Some(3600));
    let contact = extract_uri(m.header("contact").unwrap());
    assert_eq!(contact, "sip:1001@10.0.0.5:5060");
    assert_eq!(uri_user(&contact).as_deref(), Some("1001"));
    assert_eq!(uri_host(&contact).as_deref(), Some("10.0.0.5:5060"));
}

#[test]
fn roundtrips_response() {
    let mut r = SipMessage::new_response(200, "OK");
    r.push_header("Via", "SIP/2.0/UDP 10.0.0.5:5060;branch=z9hG4bK-abc");
    r.push_header("From", "<sip:1001@brew.example>;tag=aaa");
    r.push_header("To", "<sip:1001@brew.example>;tag=srv");
    r.push_header("Call-ID", "call-123");
    r.push_header("CSeq", "1 REGISTER");
    let bytes = r.to_bytes();
    let text = String::from_utf8(bytes).unwrap();
    assert!(text.starts_with("SIP/2.0 200 OK\r\n"));
    assert!(text.contains("Call-ID: call-123\r\n"));
    assert!(text.contains("Content-Length: 0\r\n"));
}

#[test]
fn stacks_multiple_via() {
    let mut req = SipMessage::new_request(Method::Invite, "sip:2002@brew.example");
    req.push_header("Via", "SIP/2.0/UDP server:5060;branch=z9hG4bK-server");
    req.push_header("Via", "SIP/2.0/UDP client:5060;branch=z9hG4bK-client");
    let out = String::from_utf8(req.to_bytes()).unwrap();
    let server_pos = out.find("branch=z9hG4bK-server").unwrap();
    let client_pos = out.find("branch=z9hG4bK-client").unwrap();
    assert!(server_pos < client_pos, "top Via must be emitted first");
}

#[test]
fn folds_comma_separated_via() {
    let raw = "OPTIONS sip:x SIP/2.0\r\nVia: SIP/2.0/UDP a:5060;branch=z1, SIP/2.0/UDP b:5060;branch=z2\r\nContent-Length: 0\r\n\r\n";
    let m = SipMessage::parse(raw.as_bytes()).unwrap();
    assert_eq!(m.headers("via").len(), 2);
}

#[test]
fn sent_messages_read_back() {
    let mut req = SipMessage::new_request(Method::Invite, "sip:2002@brew.example");
    req.push_header("Call-ID", "abc");
    req.push_header("Subject", "hello");
    req.set_body(b"v=0\r\n".to_vec());
    let back = SipMessage::parse(&req.to_bytes()).unwrap();
    assert!(back.is_request());
    assert_eq!(back.method(), Some(&Method::Invite));
    assert_eq!(back.header("CALL-ID"), Some("abc"));
    assert_eq!(back.header("subject"), Some("hello"));
    assert_eq!(back.header("content-length"), Some("5"));
    assert_eq!(back.body, b"v=0\r\n".to_vec());
}

#[test]
fn set_header_leaves_one_of_its_name() {
    let mut r = SipMessage::new_response(486, "Busy Here");
    r.push_header("To", "<sip:a@b>");
    r.push_header("To", "<sip:c@d>");
    r.set_header("to", "<sip:e@f>;tag=9");
    assert_eq!(r.headers("To"), vec!["<sip:e@f>;tag=9"]);
    assert_eq!(r.status_code(), Some(486));
    assert_eq!(r.method(), None);
}

#[test]
fn compact_names_and_folded_lines_are_understood() {
    let raw = "SIP/2.0 180 Ringing\r\nv: SIP/2.0/UDP a:5060\r\ni: id-1\r\nSubject: one\r\n two\r\n\r\n";
    let m = SipMessage::parse(raw.as_bytes()).unwrap();
    assert_eq!(m.top_via(), Some("SIP/2.0/UDP a:5060"));
    assert_eq!(m.call_id(), Some("id-1"));
    assert_eq!(m.header("subject"), Some("one two"));
    let StartLine::Status { code, reason } = &m.start else { panic!() };
    assert_eq!((*code, reason.as_str()), (180, "Ringing"));
}

#[test]
fn what_is_not_sip_is_refused() {
    assert!(SipMessage::parse(b"").is_none());
    assert!(SipMessage::parse(b"GET / HTTP/1.1\r\n\r\n").is_none());
    assert!(SipMessage::parse(b"SIP/2.0 abc OK\r\n\r\n").is_none());
}

#[test]
fn tags_are_found() {
    assert_eq!(parse_tag("<sip:a@b>; expires=9 ; tag=yes").as_deref(), Some("yes"));
    assert_eq!(parse_tag("<sip:a@b>"), None);
}

fn route(name: &str, pat: &str, to: RouteEndpoint, from: Option<RouteEndpoint>) -> VoiceRouteConfig {
    VoiceRouteConfig {
        name: name.into(),
        match_pattern: pat.into(),
        to: Some(to),
        from,
        strip_prefix: String::new(),
        enabled: true,
    }
}

#[test]
fn prefix_and_exact_matching() {
    assert!(pattern_matches("*", "anything"));
    assert!(pattern_matches("555*", "5551234"));
    assert!(!pattern_matches("555*", "6001234"));
    assert!(pattern_matches("2002", "2002"));
    assert!(!pattern_matches("2002", "2003"));
}

#[test]
fn first_matching_route_wins() {
    let routes = vec![
        route(
            "to-trunk",
            "9*",
            RouteEndpoint::SipTrunk { trunk: "asterisk".into(), number: String::new() },
            None,
        ),
        route("to-ext", "*", RouteEndpoint::SipExtension { user: "operator".into() }, None),
    ];
    let origin = CallOrigin::SipExtension("1001".into());
    let (leg, r) = resolve(&routes, &origin, "95551234").unwrap();
    assert_eq!(r.name, "to-trunk");
    match leg {
        LegEndpoint::SipTrunk { trunk, number } => {
            assert_eq!(trunk, "asterisk");
            assert_eq!(number, "95551234");
        }
        _ => panic!("expected trunk leg"),
    }
}

#[test]
fn from_restriction_is_honoured() {
    let routes = vec![route(
        "trunk-in-to-group",
        "*",
        RouteEndpoint::BrewGroup { gssi: 1001 },
        Some(RouteEndpoint::SipTrunk { trunk: "asterisk".into(), number: String::new() }),
    )];
    assert!(resolve(&routes, &CallOrigin::SipExtension("1001".into()), "anything").is_none());
    let (leg, _) = resolve(&routes, &CallOrigin::SipTrunk("asterisk".into()), "anything").unwrap();
    assert!(matches!(leg, LegEndpoint::BrewGroup { gssi: 1001 }));
}

#[test]
fn extension_to_brew_private() {
    let routes = vec![route("ext-to-issi", "7*", RouteEndpoint::BrewPrivate { issi: 90 }, None)];
    let (leg, _) = resolve(&routes, &CallOrigin::SipExtension("1001".into()), "790").unwrap();
    match leg {
        LegEndpoint::BrewPrivate { issi } => assert_eq!(issi, 90),
        _ => panic!("expected brew private leg"),
    }
}

#[test]
fn no_route_returns_none() {
    let routes = vec![route(
        "only-9",
        "9*",
        RouteEndpoint::SipTrunk { trunk: "t".into(), number: String::new() },
        None,
    )];
    assert!(resolve(&routes, &CallOrigin::SipExtension("1001".into()), "1234").is_none());
}

#[test]
fn stripped_prefix_is_not_dialled() {
    let mut r = route(
        "out",
        "9*",
        RouteEndpoint::SipTrunk { trunk: "asterisk".into(), number: String::new() },
        None,
    );
    r.strip_prefix = "9".into();
    let routes = vec![r];
    let mut trunks: Table<String, SipTrunkConfig> = Table::new();
    trunks.insert("asterisk".into(), SipTrunkConfig {
        direction: TrunkDirection::Outbound,
        remote_host: "10.0.0.5:5060".into(),
        username: "brew".into(),
        password: "x".into(),
        realm: "asterisk".into(),
        register_interval_seconds: 120,
        enabled: true,
    });
    let t = brew_to_sip(&routes, &trunks, &CallOrigin::BrewPrivate(42), "95551234").unwrap();
    let OutboundTarget::Trunk { trunk, remote_host, uri } = t else { panic!() };
    assert_eq!(trunk, "asterisk");
    assert_eq!(remote_host, "10.0.0.5:5060");
    assert_eq!(uri, "sip:5551234@10.0.0.5");
}

#[test]
fn disabled_routes_do_not_match() {
    let mut r = route("off", "*", RouteEndpoint::BrewGroup { gssi: 1 }, None);
    r.enabled = false;
    assert!(resolve(&[r], &CallOrigin::BrewGroup(2), "1").is_none());
}

#[test]
fn codecs_are_chosen_by_the_offer() {
    assert_eq!(transcoder_payload_type(&[96, 8, 0]), 8);
    assert_eq!(transcoder_payload_type(&[0, 8]), 0);
    assert_eq!(transcoder_payload_type(&[]), 0);
}

#[test]
fn invitations_come_from_the_radio() {
    let (invite, bye) =
        outbound_invite("cid", 42, "sip:5551234@pbx", "pbx:5060", "brew.example", 1, 2, b"v=0".to_vec());
    assert_eq!(invite.method(), Some(&Method::Invite));
    assert_eq!(extract_uri(invite.header("from").unwrap()), "sip:42@brew.example");
    assert_eq!(invite.from_tag(), Some(format!("{:032x}", 1)));
    assert_eq!(invite.call_id(), Some("cid"));
    assert_eq!(bye.target_addr, "pbx:5060");
    let b = bye_request("cid", &bye, "brew.example", 3);
    assert_eq!(b.method(), Some(&Method::Bye));
    assert_eq!(b.header("from"), Some(bye.from.as_str()));
    assert_eq!(b.header("to"), Some(bye.to.as_str()));
    assert_eq!(b.call_id(), Some("cid"));
    assert!(b.top_via().unwrap().contains(&format!("{:032x}", 3)));
}

#[test]
fn accepted_calls_can_be_hung_up() {
    let req = SipMessage::parse(REGISTER.as_bytes()).unwrap();
    let mut base = SipMessage::new_response(200, "OK");
    base.push_header("From", "<sip:1001@brew.example>;tag=aaa");
    base.push_header("To", "<sip:90@brew.example>;tag=srv");
    let ok = accept_call(base, "brew.example", b"v=0".to_vec());
    assert_eq!(ok.header("content-type"), Some("application/sdp"));
    let bye = dialog_bye(&ok, &req, "10.0.0.5:5060").unwrap();
    assert_eq!(bye.request_uri, "sip:1001@10.0.0.5:5060");
    assert_eq!(bye.target_addr, "10.0.0.5:5060");
    assert_eq!(bye.from, "<sip:90@brew.example>;tag=srv");
    assert_eq!(bye.to, "<sip:1001@brew.example>;tag=aaa");
}

#[test]
fn outbound_call_ids_are_unique() {
    assert_ne!(outbound_call_id(1), outbound_call_id(2));
    assert!(outbound_call_id(0xabc).contains(&format!("{:032x}", 0xabc)));
}

#[test]
fn bodies_are_opaque() {
    let m = SipMessage::parse(b"INFO sip:x SIP/2.0\r\n\r\n\xff\x00").unwrap();
    assert_eq!(m.body, vec![0xff, 0x00]);
    let m = SipMessage::parse(b"INFO sip:x SIP/2.0\nl: 1\n\n\xff\x00").unwrap();
    assert_eq!(m.body, vec![0xff]);
    let m = SipMessage::parse(b"INFO sip:x SIP/2.0\r\nSubject: \xff\r\n\r\n\r\n\r\n").unwrap();
    assert_eq!(m.header("subject"), Some("\u{fffd}"));
    assert_eq!(m.body, b"\r\n\r\n");
}

#[test]
fn written_lengths_are_those_of_the_body() {
    let mut m = SipMessage::new_response(200, "OK");
    m.set_header("Content-Length", "5");
    assert_eq!(m.to_bytes(), b"SIP/2.0 200 OK\r\nContent-Length: 0\r\n\r\n");
    m.push_header("Subject", "hi");
    m.body = vec![0xff, 0, 13, 10, 13, 10];
    let bytes = m.to_bytes();
    let back = SipMessage::parse(&bytes).unwrap();
    assert_eq!(back.body, m.body);
    assert_eq!(back.header("content-length"), Some("6"));
    assert_eq!(back.header("subject"), Some("hi"));
}

#[test]
fn challenges_have_five_parameters() {
    let p = parse_params(&build_challenge("brew", "abc"));
    assert_eq!(p.len(), 5);
    assert_eq!(p.get(&"algorithm".to_string()).unwrap(), "MD5");
}

#[test]
fn header_lines_are_in_lower_case() {
    let mut m = SipMessage::new_response(200, "OK");
    m.push_header("X-Custom", "One");
    m.set_header("SUBJECT", "hi");
    let names: Vec<&str> = m.lines.iter().map(|l| l.name()).collect();
    assert_eq!(names, vec!["x-custom", "subject"]);
    assert_eq!(m.lines[0].value(), "One");
}

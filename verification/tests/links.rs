use brew_server::config::{FederationConfig, FederationPeerConfig};
use brew_server::control::{
    failure_text, ControlCommand, ControlResponse, ControlState, SendError, Topic,
};
use brew_server::federation::{
    discover, discover_again, http_get, normalize_path, parse_http_response, peer_url,
    peers_to_dial, sync_peer, Discovered, HttpError,
};
use brew_server::protocol::{build_subscriber_message, parse, BrewMessage, SUB_AFFILIATE, SUB_REGISTER};
use brew_server::sip::auth::{build_challenge, verify_authorization};
use brew_server::state::{ClientMode, Inner, Subscriber};
use brew_server::table::KeySet;

fn peer(name: &str, enabled: bool) -> FederationPeerConfig {
    FederationPeerConfig {
        name: name.into(),
        remote_host: "10.0.0.20:9000".into(),
        path: "/brew".into(),
        username: "9000001".into(),
        password: "pw".into(),
        reconnect_interval_seconds: 15,
        enabled,
    }
}

#[test]
fn enabled_peers_are_dialled() {
    let mut cfg =
        FederationConfig { enabled: true, peers: vec![peer("a", true), peer("b", false), peer("c", true)] };
    let names: Vec<&str> = peers_to_dial(&cfg).iter().map(|p| p.name.as_str()).collect();
    assert_eq!(names, vec!["a", "c"]);
    cfg.enabled = false;
    assert!(peers_to_dial(&cfg).is_empty());
}

#[test]
fn requests_are_spelled() {
    let r = http_get("h:1", "/brew", Some("Digest x"));
    assert!(r.starts_with("GET /brew HTTP/1.1\r\n"));
    assert!(r.contains("Host: h:1\r\n"));
    assert!(r.contains("X-Brew-Mode: Peer\r\n"));
    assert!(r.contains("Authorization: Digest x\r\n"));
    assert!(r.ends_with("\r\n\r\n"));
    assert!(!http_get("h:1", "/brew", None).contains("Authorization"));
}

#[test]
fn answers_are_read() {
    let r = parse_http_response(b"HTTP/1.1 200 OK\r\nContent-Type: text/plain\r\n\r\n/brew/x").unwrap();
    assert_eq!(r.status, 200);
    assert_eq!(r.headers.get(&"content-type".to_string()).unwrap(), "text/plain");
    assert_eq!(r.body, b"/brew/x".to_vec());
    assert_eq!(parse_http_response(b"HTTP/1.1 200 OK\r\n").unwrap_err(), HttpError::NoSplit);
    assert_eq!(parse_http_response(b"\xff\r\n\r\n").unwrap_err(), HttpError::NotText);
    assert_eq!(parse_http_response(b"HTTP/1.1\r\n\r\n").unwrap_err(), HttpError::NoStatus);
}

fn answer(status: u16, head: &str, body: &[u8]) -> brew_server::federation::HttpResponse {
    let mut raw = format!("HTTP/1.1 {status} X\r\n{head}\r\n").into_bytes();
    raw.extend_from_slice(body);
    parse_http_response(&raw).unwrap()
}

#[test]
fn discovery_follows_the_answer() {
    let p = peer("a", true);
    assert!(matches!(
        discover(&p, "/brew", &answer(200, "", b" /brew/s\n"), "cn"),
        Discovered::Connect(x) if x == "/brew/s"
    ));
    assert!(matches!(discover(&p, "/brew", &answer(401, "", b""), "cn"), Discovered::NoChallenge));
    assert!(matches!(discover(&p, "/brew", &answer(200, "", b"\xff"), "cn"), Discovered::NotText));
    assert!(matches!(discover(&p, "/brew", &answer(503, "", b""), "cn"), Discovered::Unexpected(503)));
    let head = format!("WWW-Authenticate: {}\r\n", build_challenge("brew", "n1"));
    let Discovered::Answer(a) = discover(&p, "/brew", &answer(401, &head, b""), "cn") else {
        panic!()
    };
    assert!(verify_authorization(&a, "pw", "GET", "n1"));
    assert!(matches!(discover_again(&answer(401, "", b"")), Discovered::Rejected(401)));
    assert!(matches!(discover_again(&answer(200, "", b"/s")), Discovered::Connect(x) if x == "/s"));
}

#[test]
fn peer_addresses_are_built() {
    assert_eq!(normalize_path("brew/"), "/brew");
    assert_eq!(peer_url("h:1", "/brew/session/x"), "ws://h:1/brew/session/x");
}

#[test]
fn a_new_peer_learns_all_registrations() {
    let mut inner = Inner::default();
    let mut groups = KeySet::new();
    groups.insert(7u32);
    inner.subscribers.insert(90, Subscriber { client_id: 1, groups, mode: ClientMode::Basestation });
    inner.subscribers.insert(
        91,
        Subscriber { client_id: 1, groups: KeySet::new(), mode: ClientMode::Basestation },
    );
    let told = sync_peer(&inner);
    assert_eq!(told.len(), 3);
    assert!(told.contains(&build_subscriber_message(SUB_REGISTER, 90, &[])));
    assert!(told.contains(&build_subscriber_message(SUB_AFFILIATE, 90, &[7])));
    assert!(told.contains(&build_subscriber_message(SUB_REGISTER, 91, &[])));
    assert!(told.iter().all(|p| matches!(parse(p), Ok(BrewMessage::Subscriber(_)))));
}

#[test]
fn answers_find_who_asked() {
    let mut c = ControlState::new();
    c.connect("A");
    assert_eq!(c.connected_ids(), vec!["A".to_string()]);
    let (sent, waits) =
        c.send_command("A", ControlCommand::CommandA { handle: 0, parameter: 4 }, 11).unwrap();
    assert!(waits);
    let handle = sent.handle().unwrap();
    assert_eq!(sent.topic(), Some(Topic::Handle(handle)));
    let other = ControlResponse::CommandAResponse { handle: handle.wrapping_add(1), result: 0 };
    assert_eq!(c.handle_response("A", &other), None);
    let good = ControlResponse::CommandAResponse { handle, result: 0 };
    assert_eq!(c.handle_response("B", &good), None);
    assert_eq!(c.handle_response("A", &good), Some(11));
    assert_eq!(c.handle_response("A", &good), None);
}

#[test]
fn kicks_are_answered_by_subscriber() {
    let mut c = ControlState::new();
    c.connect("A");
    let (_, waits) = c.send_command("A", ControlCommand::KickMs { issi: 90 }, 5).unwrap();
    assert!(waits);
    let r = ControlResponse::KickMsResponse { issi: 90, success: true };
    assert_eq!(c.handle_response("A", &r), Some(5));
    let (_, waits) = c.send_command("A", ControlCommand::RestartService, 6).unwrap();
    assert!(!waits);
}

#[test]
fn gone_stations_take_no_commands() {
    let mut c = ControlState::new();
    c.connect("A");
    c.disconnect("A");
    assert_eq!(
        c.send_command("A", ControlCommand::RestartService, 1).unwrap_err(),
        SendError::NotConnected
    );
    assert_eq!(failure_text(SendError::NotConnected), (404, "control BTS not connected"));
    assert_eq!(failure_text(SendError::Timeout), (504, "no response from BTS"));
}

#[test]
fn peers_have_defaults() {
    let p = FederationPeerConfig::default();
    assert_eq!((p.path.as_str(), p.reconnect_interval_seconds, p.enabled), ("/brew", 15, true));
    assert!(p.name.is_empty() && p.remote_host.is_empty());
    assert!(p.username.is_empty() && p.password.is_empty());
}

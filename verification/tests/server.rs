use base64::Engine;
use brew_server::access::{
    basic_challenge, basic_username, check_credentials, offers_subprotocol, require_admin,
    require_basic, upgrade_decision, verify_basic, whoami, Upgrade,
};
use brew_server::config::AuthConfig;
use brew_server::protocol::ConnVersion;
use brew_server::server::{
    brew_discovery, brew_session, check_brew_version, connect_client, digest_challenge,
    is_valid_brew_username, normalized_path, parse_digest, unsupported_version_text, verify_digest,
    version_header_value, Discovery, DiscoveryRequest, SessionAnswer,
};
use brew_server::sip::auth::{build_authorization, parse_params};
use brew_server::state::{ClientMode, Inner};
use brew_server::table::Table;

#[test]
fn accepts_1_to_7_digits() {
    assert!(is_valid_brew_username("1"));
    assert!(is_valid_brew_username("1234567"));
    assert!(is_valid_brew_username("90"));
}

#[test]
fn rejects_more_than_7_digits() {
    assert!(!is_valid_brew_username("12345678"));
    assert!(!is_valid_brew_username("100000001"));
}

#[test]
fn rejects_empty_and_non_digits() {
    assert!(!is_valid_brew_username(""));
    assert!(!is_valid_brew_username("12a4567"));
    assert!(!is_valid_brew_username("bs1"));
    assert!(!is_valid_brew_username(" 123456"));
    assert!(!is_valid_brew_username("123-456"));
}

fn basic_auth_header(user: &str, pass: &str) -> String {
    let creds = base64::engine::general_purpose::STANDARD.encode(format!("{user}:{pass}"));
    format!("Basic {creds}")
}

fn users(list: &[(&str, &str)]) -> Table<String, String> {
    let mut t = Table::new();
    for (u, p) in list {
        t.insert(u.to_string(), p.to_string());
    }
    t
}

#[test]
fn basic_username_accepts_matching_credentials() {
    let users = users(&[("alice", "secret")]);
    let header = basic_auth_header("alice", "secret");
    assert_eq!(basic_username(&users, Some(&header)), Some("alice".to_string()));
}

#[test]
fn basic_username_rejects_wrong_password() {
    let users = users(&[("alice", "secret")]);
    let header = basic_auth_header("alice", "wrong");
    assert_eq!(basic_username(&users, Some(&header)), None);
}

#[test]
fn basic_username_rejects_missing_header() {
    let users: Table<String, String> = Table::new();
    assert_eq!(basic_username(&users, None), None);
}

#[test]
fn whoami_reports_admin_only_for_listed_users() {
    let users = users(&[("alice", "secret"), ("bob", "secret2")]);
    let admins = vec!["alice".to_string()];

    let (name, admin) = whoami(&users, &admins, Some(&basic_auth_header("alice", "secret")));
    assert!(admin);
    assert_eq!(name.as_deref(), Some("alice"));

    let (_, admin) = whoami(&users, &admins, Some(&basic_auth_header("bob", "secret2")));
    assert!(!admin);

    let (_, admin) = whoami(&users, &admins, None);
    assert!(!admin);
}

#[test]
fn whoami_treats_empty_admins_list_as_everyone_admin() {
    let users = users(&[("alice", "secret")]);
    let (_, admin) = whoami(&users, &Vec::new(), Some(&basic_auth_header("alice", "secret")));
    assert!(admin);
}

#[test]
fn guards_follow_the_credentials() {
    let u = users(&[("alice", "secret"), ("bob", "secret2")]);
    let admins = vec!["alice".to_string()];
    let alice = basic_auth_header("alice", "secret");
    let bob = basic_auth_header("bob", "secret2");
    assert!(require_basic(&u, Some(&bob)));
    assert!(!require_basic(&u, None));
    assert!(require_basic(&users(&[]), None));
    assert!(require_admin(&u, &admins, Some(&alice)));
    assert!(!require_admin(&u, &admins, Some(&bob)));
}

#[test]
fn decoded_credentials_are_checked() {
    let u = users(&[("alice", "se:cret")]);
    assert_eq!(check_credentials(&u, Some(b"alice:se:cret".to_vec())).as_deref(), Some("alice"));
    assert_eq!(check_credentials(&u, Some(b"alice".to_vec())), None);
    assert_eq!(check_credentials(&u, Some(vec![0xff, b':', b'x'])), None);
    assert_eq!(check_credentials(&u, None), None);
}

#[test]
fn bad_encodings_prove_nobody() {
    let u = users(&[("alice", "secret")]);
    assert_eq!(basic_username(&u, Some("Basic ***")), None);
    assert_eq!(basic_username(&u, Some("Bearer YWxpY2U6c2VjcmV0")), None);
    assert!(verify_basic(&u, Some("Basic ***")).is_err());
    assert_eq!(verify_basic(&users(&[]), None), Ok(None));
    assert_eq!(basic_challenge("Brew"), "Basic realm=\"Brew\"");
}

#[test]
fn connections_need_credentials_and_a_protocol() {
    let u = users(&[("bts", "pw")]);
    let good = basic_auth_header("bts", "pw");
    assert!(matches!(
        upgrade_decision("Telemetry", &u, "tele", None, Some("tele")),
        Upgrade::Challenge(c) if c == "Basic realm=\"Telemetry\""
    ));
    assert!(matches!(
        upgrade_decision("Telemetry", &u, "tele", Some(&good), Some("other")),
        Upgrade::Mismatch
    ));
    assert!(matches!(
        upgrade_decision("Telemetry", &u, "tele", Some(&good), Some("other, tele")),
        Upgrade::Accept(Some(name)) if name == "bts"
    ));
    assert!(matches!(
        upgrade_decision("Telemetry", &users(&[]), "tele", None, Some("tele")),
        Upgrade::Accept(None)
    ));
    assert!(offers_subprotocol(" a , b", "b"));
    assert!(!offers_subprotocol("ab", "b"));
}

#[test]
fn paths_are_canonical() {
    assert_eq!(normalized_path("brew"), "/brew");
    assert_eq!(normalized_path("/brew//"), "/brew");
    assert_eq!(normalized_path("/brew"), "/brew");
}

#[test]
fn versions_are_negotiated() {
    assert_eq!(check_brew_version(false, None), Some(ConnVersion::V0));
    assert_eq!(check_brew_version(true, Some("0")), Some(ConnVersion::V0));
    assert_eq!(check_brew_version(true, Some(" 1 ")), Some(ConnVersion::V1));
    assert_eq!(check_brew_version(true, Some("2")), None);
    assert_eq!(check_brew_version(true, Some("x")), None);
    assert_eq!(check_brew_version(true, None), None);
    assert_eq!(version_header_value(), "1");
    assert!(!unsupported_version_text().is_empty());
}

fn auth_config() -> AuthConfig {
    AuthConfig {
        enabled: true,
        realm: "brew".into(),
        users: users(&[("1001", "pw")]),
        session_ttl_seconds: 60,
    }
}

fn request<'a>(
    authorization: Option<&'a str>,
    upgrade: Option<&'a str>,
) -> DiscoveryRequest<'a> {
    DiscoveryRequest {
        version_present: true,
        version: Some("1"),
        mode: Some("Terminal"),
        upgrade,
        authorization,
        path: "/brew",
    }
}

#[test]
fn discovery_leads_to_a_session() {
    let auth = auth_config();
    let mut inner = Inner::default();
    let Discovery::Challenge(challenge) =
        brew_discovery(&mut inner, &auth, "/brew", 10, &request(None, None), 1, 2)
    else {
        panic!()
    };
    let nonce = parse_params(&challenge).get(&"nonce".to_string()).unwrap().clone();
    assert_eq!(nonce, format!("{:032x}", 2));
    let answer =
        build_authorization(&parse_params(&challenge), "1001", "pw", "GET", "/brew", "c0ffee", 1);
    let Discovery::Path(path) =
        brew_discovery(&mut inner, &auth, "/brew", 11, &request(Some(&answer), None), 3, 4)
    else {
        panic!()
    };
    assert_eq!(path, format!("/brew/session/{:032x}", 3));
    // The nonce is spent.
    assert!(matches!(
        brew_discovery(&mut inner, &auth, "/brew", 12, &request(Some(&answer), None), 5, 6),
        Discovery::Challenge(_)
    ));
    let token = format!("{:032x}", 3);
    assert!(matches!(brew_session(&mut inner, &auth, 13, &token, None), SessionAnswer::BadRequest));
    let SessionAnswer::Upgrade { mode, version, username } =
        brew_session(&mut inner, &auth, 13, &token, Some("WebSocket"))
    else {
        panic!()
    };
    assert_eq!(mode, ClientMode::Terminal);
    assert_eq!(version, ConnVersion::V1);
    assert_eq!(username.as_deref(), Some("1001"));
    assert!(matches!(
        brew_session(&mut inner, &auth, 13, &token, Some("websocket")),
        SessionAnswer::Unauthorized
    ));
}

#[test]
fn open_servers_upgrade_at_once() {
    let mut auth = auth_config();
    auth.enabled = false;
    let mut inner = Inner::default();
    assert!(matches!(
        brew_discovery(&mut inner, &auth, "brew/", 0, &request(None, None), 1, 2),
        Discovery::Path(p) if p == "/brew"
    ));
    assert!(matches!(
        brew_discovery(&mut inner, &auth, "brew", 0, &request(None, Some("websocket")), 1, 2),
        Discovery::Upgrade { mode: ClientMode::Terminal, version: ConnVersion::V1 }
    ));
    assert!(matches!(brew_session(&mut inner, &auth, 0, "x", None), SessionAnswer::NotFound));
    let mut r = request(None, None);
    r.version = Some("9");
    assert!(matches!(
        brew_discovery(&mut inner, &auth, "brew", 0, &r, 1, 2),
        Discovery::Unsupported
    ));
}

#[test]
fn digest_answers_are_spent() {
    let auth = auth_config();
    let mut inner = Inner::default();
    let challenge = digest_challenge(&mut inner, "brew", 77, 5);
    let p = parse_digest(&challenge);
    assert_eq!(p.get(&"realm".to_string()).unwrap(), "brew");
    let answer =
        build_authorization(&parse_params(&challenge), "1001", "pw", "GET", "/brew", "aa", 1);
    let wrong =
        build_authorization(&parse_params(&challenge), "1001", "no", "GET", "/brew", "aa", 1);
    assert_eq!(verify_digest(&mut inner, &auth, Some(&wrong), "GET", "/brew"), None);
    let again = digest_challenge(&mut inner, "brew", 77, 5);
    assert_eq!(again, challenge);
    assert_eq!(
        verify_digest(&mut inner, &auth, Some(&answer), "GET", "/brew").as_deref(),
        Some("1001")
    );
    assert_eq!(verify_digest(&mut inner, &auth, Some(&answer), "GET", "/brew"), None);
    assert_eq!(verify_digest(&mut inner, &auth, None, "GET", "/brew"), None);
}

#[test]
fn clients_are_connected() {
    let mut inner = Inner::default();
    connect_client(
        &mut inner,
        9,
        ClientMode::Peer,
        ConnVersion::V1,
        Some("10.0.0.1:5".into()),
        123,
        Some("1001".into()),
    );
    let c = inner.clients.get(&9).unwrap();
    assert_eq!(c.mode, ClientMode::Peer);
    assert_eq!(c.remote_addr.as_deref(), Some("10.0.0.1:5"));
    assert_eq!(c.username.as_deref(), Some("1001"));
    assert_eq!(c.connected_at_ms, 123);
}

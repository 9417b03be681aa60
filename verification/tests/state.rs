use brew_server::ids::Id;
use brew_server::protocol::ConnVersion;
use brew_server::state::{Client, ClientMode, Inner, Subscriber};
use brew_server::table::KeySet;
use uuid::Uuid;

fn subscriber(mode: ClientMode) -> Subscriber {
    Subscriber { client_id: Uuid::new_v4().as_u128(), groups: KeySet::new(), mode }
}

#[test]
fn counts_only_terminal_mode_subscribers() {
    let mut inner = Inner::default();
    inner.subscribers.insert(1001, subscriber(ClientMode::Terminal));
    inner.subscribers.insert(1002, subscriber(ClientMode::Terminal));
    inner.subscribers.insert(2001, subscriber(ClientMode::Basestation));
    assert_eq!(inner.ms_registration_count(), 2);
    assert_eq!(inner.subscribers.len(), 3, "raw map still holds every registration");
}

#[test]
fn zero_when_only_basestations_registered() {
    let mut inner = Inner::default();
    inner.subscribers.insert(2001, subscriber(ClientMode::Basestation));
    inner.subscribers.insert(2002, subscriber(ClientMode::Basestation));
    assert_eq!(inner.ms_registration_count(), 0);
}

#[test]
fn zero_when_no_subscribers() {
    assert_eq!(Inner::default().ms_registration_count(), 0);
}

fn client(mode: ClientMode) -> Client {
    Client {
        mode,
        version: ConnVersion::default(),
        remote_addr: None,
        connected_at_ms: 0,
        username: None,
    }
}

fn fresh() -> Id {
    Uuid::new_v4().as_u128()
}

#[test]
fn counts_only_basestation_mode_clients() {
    let mut inner = Inner::default();
    inner.clients.insert(fresh(), client(ClientMode::Basestation));
    inner.clients.insert(fresh(), client(ClientMode::Basestation));
    inner.clients.insert(fresh(), client(ClientMode::Terminal));
    inner.clients.insert(fresh(), client(ClientMode::Terminal));
    assert_eq!(inner.basestation_count(), 2);
    assert_eq!(inner.clients.len(), 4, "raw client map still holds every connection");
}

#[test]
fn zero_when_only_terminals_connected() {
    let mut inner = Inner::default();
    inner.clients.insert(fresh(), client(ClientMode::Terminal));
    inner.clients.insert(fresh(), client(ClientMode::Terminal));
    assert_eq!(inner.basestation_count(), 0);
}

#[test]
fn zero_when_no_clients() {
    assert_eq!(Inner::default().basestation_count(), 0);
}

#[test]
fn modes_are_read_from_the_header() {
    assert_eq!(ClientMode::from_header(Some(" terminal ")), ClientMode::Terminal);
    assert_eq!(ClientMode::from_header(Some("PEER")), ClientMode::Peer);
    assert_eq!(ClientMode::from_header(Some("other")), ClientMode::Basestation);
    assert_eq!(ClientMode::from_header(None), ClientMode::Basestation);
    assert!(ClientMode::Peer.wants_registration_updates());
}

#[test]
fn versions_only_rise() {
    let mut inner = Inner::default();
    inner.clients.insert(7, client(ClientMode::Basestation));
    assert_eq!(inner.client_version(7), ConnVersion::V0);
    assert!(inner.promote_client_version(7, ConnVersion::V1));
    assert!(!inner.promote_client_version(7, ConnVersion::V0));
    assert_eq!(inner.client_version(7), ConnVersion::V1);
}

#[test]
fn cleaning_up_drops_only_what_is_theirs() {
    let mut inner = Inner::default();
    inner.clients.insert(1, client(ClientMode::Basestation));
    inner.clients.insert(2, client(ClientMode::Basestation));
    for (issi, owner) in [(90u32, 1u128), (91, 2)] {
        let mut s = subscriber(ClientMode::Basestation);
        s.client_id = owner;
        inner.subscribers.insert(issi, s);
    }
    inner.cleanup_client(1);
    assert!(!inner.clients.contains_key(&1));
    assert!(!inner.subscribers.contains_key(&90));
    assert!(inner.clients.contains_key(&2));
    assert!(inner.subscribers.contains_key(&91));
}

//! What the server knows: connections, registrations, calls and short-data
//! transactions.
use crate::ids::Id;
use crate::protocol;
use crate::protocol::ConnVersion;
use crate::table;
use crate::table::{Keep, KeySet, Table};
use crate::text;
use crate::text::{chars_of, same_chars_no_case, trim_chars};
use vstd::prelude::*;

verus! {

pub type ClientId = Id;

/// Role that a client advertises in the `X-Brew-Mode` header at discovery. A
/// terminal needs no registration updates, a basestation does; a peer is
/// another server. Without the header a client counts as a basestation.
#[derive(Debug, Clone, Copy, PartialEq, Eq, Structural)]
pub enum ClientMode {
    Terminal,
    Basestation,
    Peer,
}

impl Default for ClientMode {
    fn default() -> (r: Self)
        ensures
            r == ClientMode::Basestation,
    {
        ClientMode::Basestation
    }
}

/// Role named by a header value: white space and case do not matter.
pub open spec fn mode_of_header(value: Option<Seq<char>>) -> ClientMode {
    match value {
        Some(v) => if text::eq_no_case(text::trim(v), "Terminal"@) {
            ClientMode::Terminal
        } else if text::eq_no_case(text::trim(v), "Peer"@) {
            ClientMode::Peer
        } else {
            ClientMode::Basestation
        },
        None => ClientMode::Basestation,
    }
}

impl ClientMode {
    pub fn from_header(value: Option<&str>) -> (r: Self)
        ensures
            r == mode_of_header(
                match value {
                    Some(v) => Some(v@),
                    None => None,
                },
            ),
    {
        match value {
            Some(v) => {
                let all = chars_of(v);
                let name = trim_chars(&all);
                let terminal = chars_of("Terminal");
                let peer = chars_of("Peer");
                if same_chars_no_case(name, &terminal) {
                    ClientMode::Terminal
                } else if same_chars_no_case(name, &peer) {
                    ClientMode::Peer
                } else {
                    ClientMode::Basestation
                }
            },
            None => ClientMode::Basestation,
        }
    }

    /// Name of the role in headers and on the dashboard.
    pub open spec fn name(self) -> Seq<char> {
        match self {
            ClientMode::Terminal => "Terminal"@,
            ClientMode::Basestation => "Basestation"@,
            ClientMode::Peer => "Peer"@,
        }
    }

    pub fn as_str(self) -> (r: &'static str)
        ensures
            r@ == self.name(),
    {
        match self {
            ClientMode::Terminal => "Terminal",
            ClientMode::Basestation => "Basestation",
            ClientMode::Peer => "Peer",
        }
    }

    /// Whether registration updates are pushed to this client. Terminals opt
    /// out to save resources.
    pub fn wants_registration_updates(self) -> (r: bool)
        ensures
            r == (self != ClientMode::Terminal),
    {
        match self {
            ClientMode::Terminal => false,
            _ => true,
        }
    }
}

/// A connected client.
#[derive(Debug)]
pub struct Client {
    pub mode: ClientMode,
    /// Version of the connection: seeded from the discovery header and
    /// promoted as version 1 layouts are seen on the wire.
    pub version: ConnVersion,
    pub remote_addr: Option<String>,
    pub connected_at_ms: u64,
    pub username: Option<String>,
}

pub struct ClientModel {
    pub mode: ClientMode,
    pub version: ConnVersion,
    pub remote_addr: Option<Seq<char>>,
    pub connected_at_ms: u64,
    pub username: Option<Seq<char>>,
}

impl View for Client {
    type V = ClientModel;

    open spec fn view(&self) -> ClientModel {
        ClientModel {
            mode: self.mode,
            version: self.version,
            remote_addr: protocol::opt_text(self.remote_addr),
            connected_at_ms: self.connected_at_ms,
            username: protocol::opt_text(self.username),
        }
    }
}

/// A registered subscriber.
#[derive(Debug)]
pub struct Subscriber {
    pub client_id: ClientId,
    pub groups: KeySet<u32>,
    /// Role of the client that registered this subscriber. Only a terminal is
    /// itself a mobile station.
    pub mode: ClientMode,
}

#[verifier::ext_equal]
pub struct SubscriberModel {
    pub client_id: Id,
    pub groups: Set<u32>,
    pub mode: ClientMode,
}

impl View for Subscriber {
    type V = SubscriberModel;

    open spec fn view(&self) -> SubscriberModel {
        SubscriberModel { client_id: self.client_id, groups: self.groups@, mode: self.mode }
    }
}

#[derive(Debug, Clone, Copy, PartialEq, Eq, Structural)]
pub enum CallKind {
    Group,
    Private,
}

/// A call in progress.
#[derive(Debug)]
pub struct ActiveCall {
    pub kind: CallKind,
    pub owner: ClientId,
    pub source_issi: u32,
    pub destination: u32,
    pub priority: u8,
    pub peers: KeySet<Id>,
    /// Reading of the monotonic clock, in nanoseconds.
    pub started_at: u64,
}

#[verifier::ext_equal]
pub struct CallModel {
    pub kind: CallKind,
    pub owner: Id,
    pub source_issi: u32,
    pub destination: u32,
    pub priority: u8,
    pub peers: Set<Id>,
    pub started_at: u64,
}

impl View for ActiveCall {
    type V = CallModel;

    open spec fn view(&self) -> CallModel {
        CallModel {
            kind: self.kind,
            owner: self.owner,
            source_issi: self.source_issi,
            destination: self.destination,
            priority: self.priority,
            peers: self.peers@,
            started_at: self.started_at,
        }
    }
}

impl CallModel {
    /// Whether a client takes part in the call.
    pub open spec fn involves(self, id: Id) -> bool {
        self.owner == id || self.peers.contains(id)
    }
}

/// A short-data transaction between its header and its reports.
#[derive(Debug)]
pub struct SdsRoute {
    pub source_client: ClientId,
    pub targets: KeySet<Id>,
    pub source_issi: u32,
    pub destination: u32,
    /// Monotonic clock reading in nanoseconds.
    pub created_at: u64,
}

#[verifier::ext_equal]
pub struct SdsModel {
    pub source_client: Id,
    pub targets: Set<Id>,
    pub source_issi: u32,
    pub destination: u32,
    pub created_at: u64,
}

impl View for SdsRoute {
    type V = SdsModel;

    open spec fn view(&self) -> SdsModel {
        SdsModel {
            source_client: self.source_client,
            targets: self.targets@,
            source_issi: self.source_issi,
            destination: self.destination,
            created_at: self.created_at,
        }
    }
}

/// What discovery granted to the holder of a session token.
#[derive(Debug)]
pub struct AuthSession {
    /// Monotonic clock reading in nanoseconds.
    pub at: u64,
    pub mode: ClientMode,
    pub version: ConnVersion,
    pub username: Option<String>,
}

pub struct SessionModel {
    pub at: u64,
    pub mode: ClientMode,
    pub version: ConnVersion,
    pub username: Option<Seq<char>>,
}

impl View for AuthSession {
    type V = SessionModel;

    open spec fn view(&self) -> SessionModel {
        SessionModel {
            at: self.at,
            mode: self.mode,
            version: self.version,
            username: protocol::opt_text(self.username),
        }
    }
}

/// The server's state.
#[derive(Debug)]
pub struct Inner {
    pub clients: Table<Id, Client>,
    pub subscribers: Table<u32, Subscriber>,
    pub group_clients: Table<u32, KeySet<Id>>,
    pub calls: Table<Id, ActiveCall>,
    pub group_floor: Table<u32, Id>,
    pub sds_routes: Table<Id, SdsRoute>,
    pub digest_nonces: Table<String, u64>,
    pub auth_sessions: Table<String, AuthSession>,
}

/// Model of the server's state.
#[verifier::ext_equal]
pub struct World {
    pub clients: Map<Id, ClientModel>,
    pub subscribers: Map<u32, SubscriberModel>,
    pub group_clients: Map<u32, Set<Id>>,
    pub calls: Map<Id, CallModel>,
    pub group_floor: Map<u32, Id>,
    pub sds_routes: Map<Id, SdsModel>,
    pub digest_nonces: Map<Seq<char>, u64>,
    pub auth_sessions: Map<Seq<char>, SessionModel>,
}

impl View for Inner {
    type V = World;

    open spec fn view(&self) -> World {
        World {
            clients: self.clients@,
            subscribers: self.subscribers@,
            group_clients: self.group_clients@,
            calls: self.calls@,
            group_floor: self.group_floor@,
            sds_routes: self.sds_routes@,
            digest_nonces: self.digest_nonces@,
            auth_sessions: self.auth_sessions@,
        }
    }
}

impl Default for Inner {
    fn default() -> (r: Self)
        ensures
            r@ == World::nothing(),
    {
        Inner {
            clients: Table::new(),
            subscribers: Table::new(),
            group_clients: Table::new(),
            calls: Table::new(),
            group_floor: Table::new(),
            sds_routes: Table::new(),
            digest_nonces: Table::new(),
            auth_sessions: Table::new(),
        }
    }
}

/// Nanoseconds that a digest nonce stays valid.
pub const NONCE_TTL_NS: u64 = 120_000_000_000;

/// Nanoseconds that a short-data transaction stays open.
pub const SDS_TTL_NS: u64 = 60_000_000_000;

/// Nanoseconds from `at` to `now`; zero if `at` lies ahead.
pub open spec fn age(now: u64, at: u64) -> int {
    if now >= at {
        now - at
    } else {
        0
    }
}

/// Nanoseconds that an authenticated session stays valid, at least one second.
pub open spec fn session_ttl_ns(seconds: u64) -> int {
    if seconds == 0 {
        1_000_000_000
    } else {
        seconds * 1_000_000_000
    }
}

/// Whether a nonce issued at `at` is still valid.
pub open spec fn nonce_fresh(now: u64, at: u64) -> bool {
    age(now, at) < NONCE_TTL_NS
}

/// Whether a session granted at `at` is still valid.
pub open spec fn session_fresh(now: u64, at: u64, ttl_seconds: u64) -> bool {
    age(now, at) < session_ttl_ns(ttl_seconds)
}

/// Whether a call has lasted longer than allowed. A limit of zero is none.
pub open spec fn overdue(c: CallModel, now: u64, max_seconds: u64) -> bool {
    max_seconds > 0 && age(now, c.started_at) > max_seconds * 1_000_000_000
}

/// Whether a short-data transaction opened at `at` is still open.
pub open spec fn sds_fresh(now: u64, at: u64) -> bool {
    age(now, at) < SDS_TTL_NS
}

impl World {
    /// The state of a server that knows nothing.
    pub open spec fn nothing() -> World {
        World {
            clients: Map::empty(),
            subscribers: Map::empty(),
            group_clients: Map::empty(),
            calls: Map::empty(),
            group_floor: Map::empty(),
            sds_routes: Map::empty(),
            digest_nonces: Map::empty(),
            auth_sessions: Map::empty(),
        }
    }

    /// Version of a connection; version 0 for an unknown client.
    pub open spec fn version_of(self, id: Id) -> ConnVersion {
        if self.clients.dom().contains(id) {
            self.clients[id].version
        } else {
            ConnVersion::V0
        }
    }

    /// Role of a client; basestation for an unknown one.
    pub open spec fn mode_of(self, id: Id) -> ClientMode {
        if self.clients.dom().contains(id) {
            self.clients[id].mode
        } else {
            ClientMode::Basestation
        }
    }

    /// Whether a higher version than the stored one was seen on a connection.
    pub open spec fn raises(self, id: Id, seen: ConnVersion) -> bool {
        self.clients.dom().contains(id) && seen.number() > self.clients[id].version.number()
    }

    /// The state after a version was seen on a connection: raised, never
    /// lowered.
    pub open spec fn promote(self, id: Id, seen: ConnVersion) -> World {
        if self.raises(id, seen) {
            World {
                clients: self.clients.insert(
                    id,
                    ClientModel { version: seen, ..self.clients[id] },
                ),
                ..self
            }
        } else {
            self
        }
    }

    /// The state without what has expired.
    pub open spec fn purged(self, now: u64, session_ttl_seconds: u64) -> World {
        World {
            digest_nonces: table::kept(self.digest_nonces, |at: u64| nonce_fresh(now, at)),
            auth_sessions: table::kept(
                self.auth_sessions,
                |s: SessionModel| session_fresh(now, s.at, session_ttl_seconds),
            ),
            sds_routes: table::kept(self.sds_routes, |r: SdsModel| sds_fresh(now, r.created_at)),
            ..self
        }
    }

    /// Whether the floor of a group is held by a call that ends when a client
    /// leaves.
    pub open spec fn floor_falls(self, gssi: u32, id: Id) -> bool {
        let call = self.group_floor[gssi];
        &&& self.calls.dom().contains(call)
        &&& self.calls[call].involves(id)
        &&& self.calls[call].kind == CallKind::Group
        &&& self.calls[call].destination == gssi
    }

    /// The state after a client has left: its connection, its registrations,
    /// its place in groups, its calls and its short-data transactions are gone.
    pub open spec fn without_client(self, id: Id) -> World {
        World {
            clients: self.clients.remove(id),
            subscribers: table::kept(self.subscribers, |s: SubscriberModel| s.client_id != id),
            group_clients: table::kept(
                self.group_clients.map_values(|s: Set<Id>| s.remove(id)),
                |s: Set<Id>| s != Set::<Id>::empty(),
            ),
            calls: table::kept(self.calls, |c: CallModel| !c.involves(id)),
            group_floor: self.group_floor.restrict(
                self.group_floor.dom().filter(|g: u32| !self.floor_falls(g, id)),
            ),
            sds_routes: table::kept(
                self.sds_routes,
                |r: SdsModel| r.source_client != id && !r.targets.contains(id),
            ),
            ..self
        }
    }
}

struct Terminals;

impl Keep<Subscriber> for Terminals {
    open spec fn wants(&self, v: SubscriberModel) -> bool {
        v.mode == ClientMode::Terminal
    }

    fn keeps(&self, v: &Subscriber) -> (r: bool) {
        v.mode == ClientMode::Terminal
    }
}

struct WithMode {
    mode: ClientMode,
}

impl Keep<Client> for WithMode {
    closed spec fn wants(&self, v: ClientModel) -> bool {
        v.mode == self.mode
    }

    fn keeps(&self, v: &Client) -> (r: bool) {
        v.mode == self.mode
    }
}

struct Younger {
    now: u64,
    ttl_ns: u128,
}

impl Younger {
    fn test(&self, at: u64) -> (r: bool)
        ensures
            r == (age(self.now, at) < self.ttl_ns),
    {
        let a: u64 = if self.now >= at {
            self.now - at
        } else {
            0
        };
        (a as u128) < self.ttl_ns
    }
}

impl Keep<u64> for Younger {
    closed spec fn wants(&self, v: u64) -> bool {
        age(self.now, v) < self.ttl_ns
    }

    fn keeps(&self, v: &u64) -> (r: bool) {
        self.test(*v)
    }
}

impl Keep<AuthSession> for Younger {
    closed spec fn wants(&self, v: SessionModel) -> bool {
        age(self.now, v.at) < self.ttl_ns
    }

    fn keeps(&self, v: &AuthSession) -> (r: bool) {
        self.test(v.at)
    }
}

impl Keep<SdsRoute> for Younger {
    closed spec fn wants(&self, v: SdsModel) -> bool {
        age(self.now, v.created_at) < self.ttl_ns
    }

    fn keeps(&self, v: &SdsRoute) -> (r: bool) {
        self.test(v.created_at)
    }
}

impl ActiveCall {
    /// Whether the call has lasted longer than allowed. `now` is a monotonic clock reading
    /// in nanoseconds.
    pub fn lasts_too_long(&self, now: u64, max_seconds: u64) -> (r: bool)
        ensures
            r == overdue(self@, now, max_seconds),
    {
        let a: u64 = if now >= self.started_at {
            now - self.started_at
        } else {
            0
        };
        max_seconds > 0 && (a as u128) > (max_seconds as u128) * 1_000_000_000
    }
}

struct Overdue {
    now: u64,
    max_seconds: u64,
}

impl Keep<ActiveCall> for Overdue {
    closed spec fn wants(&self, v: CallModel) -> bool {
        overdue(v, self.now, self.max_seconds)
    }

    fn keeps(&self, v: &ActiveCall) -> (r: bool) {
        v.lasts_too_long(self.now, self.max_seconds)
    }
}

struct NotOf {
    id: Id,
}

impl Keep<Subscriber> for NotOf {
    closed spec fn wants(&self, v: SubscriberModel) -> bool {
        v.client_id != self.id
    }

    fn keeps(&self, v: &Subscriber) -> (r: bool) {
        v.client_id != self.id
    }
}

impl Keep<ActiveCall> for NotOf {
    closed spec fn wants(&self, v: CallModel) -> bool {
        !v.involves(self.id)
    }

    fn keeps(&self, v: &ActiveCall) -> (r: bool) {
        !(v.owner == self.id || v.peers.contains(&self.id))
    }
}

impl Keep<SdsRoute> for NotOf {
    closed spec fn wants(&self, v: SdsModel) -> bool {
        v.source_client != self.id && !v.targets.contains(self.id)
    }

    fn keeps(&self, v: &SdsRoute) -> (r: bool) {
        v.source_client != self.id && !v.targets.contains(&self.id)
    }
}

struct Inhabited;

impl Keep<KeySet<Id>> for Inhabited {
    closed spec fn wants(&self, v: Set<Id>) -> bool {
        v != Set::<Id>::empty()
    }

    fn keeps(&self, v: &KeySet<Id>) -> (r: bool) {
        !v.is_empty()
    }
}

impl Inner {
    /// Number of registered subscribers that are mobile stations, that is,
    /// registered by a terminal.
    pub fn ms_registration_count(&self) -> (r: usize)
        ensures
            r == table::kept(
                self@.subscribers,
                |s: SubscriberModel| s.mode == ClientMode::Terminal,
            ).dom().len(),
    {
        let p = Terminals;
        let r = self.subscribers.count_where(&p);
        assert(table::kept(self@.subscribers, |s: SubscriberModel| p.wants(s)) =~= table::kept(
            self@.subscribers,
            |s: SubscriberModel| s.mode == ClientMode::Terminal,
        ));
        r
    }

    /// Number of connected basestations.
    pub fn basestation_count(&self) -> (r: usize)
        ensures
            r == table::kept(
                self@.clients,
                |c: ClientModel| c.mode == ClientMode::Basestation,
            ).dom().len(),
    {
        let p = WithMode { mode: ClientMode::Basestation };
        let r = self.clients.count_where(&p);
        assert(table::kept(self@.clients, |c: ClientModel| p.wants(c)) =~= table::kept(
            self@.clients,
            |c: ClientModel| c.mode == ClientMode::Basestation,
        ));
        r
    }

    /// The connected clients with a given role.
    pub fn clients_with_mode(&self, mode: ClientMode) -> (r: KeySet<Id>)
        ensures
            r@ == table::kept(self@.clients, |c: ClientModel| c.mode == mode).dom(),
    {
        let p = WithMode { mode };
        let r = self.clients.keys_where(&p);
        assert(table::kept(self@.clients, |c: ClientModel| p.wants(c)) =~= table::kept(
            self@.clients,
            |c: ClientModel| c.mode == mode,
        ));
        r
    }

    /// The calls that have lasted longer than allowed. `now` is a monotonic clock
    /// reading in nanoseconds.
    pub fn overdue_calls(&self, now: u64, max_seconds: u64) -> (r: KeySet<Id>)
        ensures
            r@ == table::kept(self@.calls, |c: CallModel| overdue(c, now, max_seconds)).dom(),
    {
        let p = Overdue { now, max_seconds };
        let r = self.calls.keys_where(&p);
        assert(table::kept(self@.calls, |c: CallModel| p.wants(c)) =~= table::kept(
            self@.calls,
            |c: CallModel| overdue(c, now, max_seconds),
        ));
        r
    }

    /// Version of a connection; version 0 for an unknown client.
    pub fn client_version(&self, id: ClientId) -> (r: ConnVersion)
        ensures
            r == self@.version_of(id),
    {
        match self.clients.get(&id) {
            Some(c) => c.version,
            None => ConnVersion::V0,
        }
    }

    /// Role of a client; basestation for an unknown one.
    pub fn client_mode(&self, id: ClientId) -> (r: ClientMode)
        ensures
            r == self@.mode_of(id),
    {
        match self.clients.get(&id) {
            Some(c) => c.mode,
            None => ClientMode::Basestation,
        }
    }

    /// Raises the stored version of a connection to the observed one; says
    /// whether this raised it.
    pub fn promote_client_version(&mut self, id: ClientId, observed: ConnVersion) -> (r: bool)
        ensures
            final(self)@ == old(self)@.promote(id, observed),
            r == old(self)@.raises(id, observed),
    {
        let raise = match self.clients.get(&id) {
            Some(c) => observed.as_u8() > c.version.as_u8(),
            None => false,
        };
        if raise {
            match self.clients.remove(&id) {
                Some(c) => {
                    let mut c = c;
                    c.version = observed;
                    self.clients.insert(id, c);
                    assert(self@.clients =~= old(self)@.promote(id, observed).clients);
                },
                None => {},
            }
        }
        raise
    }

    /// Drops expired nonces, sessions and short-data transactions. `now` is a
    /// monotonic clock reading in nanoseconds.
    pub fn purge_ephemeral(&mut self, now: u64, session_ttl_seconds: u64)
        ensures
            final(self)@ == old(self)@.purged(now, session_ttl_seconds),
    {
        let nonces = Younger { now, ttl_ns: NONCE_TTL_NS as u128 };
        let secs: u64 = if session_ttl_seconds == 0 {
            1
        } else {
            session_ttl_seconds
        };
        let sessions = Younger { now, ttl_ns: (secs as u128) * 1_000_000_000 };
        let sds = Younger { now, ttl_ns: SDS_TTL_NS as u128 };
        self.digest_nonces.retain(&nonces);
        self.auth_sessions.retain(&sessions);
        self.sds_routes.retain(&sds);
        proof {
            let want = old(self)@.purged(now, session_ttl_seconds);
            assert(self@.digest_nonces =~= want.digest_nonces);
            assert(self@.auth_sessions =~= want.auth_sessions);
            assert(self@.sds_routes =~= want.sds_routes);
        }
    }

    /// Takes a client out of every group it is in.
    fn leave_groups(&mut self, id: ClientId)
        ensures
            final(self)@ == (World {
                group_clients: old(self)@.group_clients.map_values(|s: Set<Id>| s.remove(id)),
                ..old(self)@
            }),
    {
        let ghost whole = self.group_clients@;
        let mut rest: Table<u32, KeySet<Id>> = Table::new();
        std::mem::swap(&mut rest, &mut self.group_clients);
        let mut n: usize = rest.len();
        while n > 0
            invariant
                n == rest@.len(),
                rest@.dom().finite(),
                forall|k: u32| #[trigger]
                    rest@.dom().contains(k) ==> whole.dom().contains(k) && rest@[k] == whole[k],
                forall|k: u32| #[trigger]
                    self.group_clients@.dom().contains(k) <==> whole.dom().contains(k)
                        && !rest@.dom().contains(k),
                forall|k: u32| #[trigger]
                    self.group_clients@.dom().contains(k) ==> self.group_clients@[k]
                        == whole[k].remove(id),
                self@ == (World { group_clients: self.group_clients@, ..old(self)@ }),
            decreases n,
        {
            match rest.pop() {
                Some((k, v)) => {
                    let mut v = v;
                    v.remove(&id);
                    self.group_clients.insert(k, v);
                },
                None => {},
            }
            n = rest.len();
        }
        assert(rest@.dom() =~= Set::<u32>::empty());
        assert(self.group_clients@ =~= whole.map_values(|s: Set<Id>| s.remove(id)));
    }

    /// Frees the floors held by calls that end when a client leaves.
    fn drop_floors(&mut self, id: ClientId)
        ensures
            final(self)@ == (World {
                group_floor: old(self)@.group_floor.restrict(
                    old(self)@.group_floor.dom().filter(|g: u32| !old(self)@.floor_falls(g, id)),
                ),
                ..old(self)@
            }),
    {
        let ghost w = self@;
        let ghost whole = self.group_floor@;
        let mut rest: Table<u32, Id> = Table::new();
        std::mem::swap(&mut rest, &mut self.group_floor);
        let mut n: usize = rest.len();
        while n > 0
            invariant
                n == rest@.len(),
                rest@.dom().finite(),
                whole == w.group_floor,
                w == old(self)@,
                forall|k: u32| #[trigger]
                    rest@.dom().contains(k) ==> whole.dom().contains(k) && rest@[k] == whole[k],
                forall|k: u32| #[trigger]
                    self.group_floor@.dom().contains(k) <==> whole.dom().contains(k)
                        && !rest@.dom().contains(k) && !w.floor_falls(k, id),
                forall|k: u32| #[trigger]
                    self.group_floor@.dom().contains(k) ==> self.group_floor@[k] == whole[k],
                self@ == (World { group_floor: self.group_floor@, ..w }),
            decreases n,
        {
            match rest.pop() {
                Some((g, call)) => {
                    let falls = match self.calls.get(&call) {
                        Some(c) => (c.owner == id || c.peers.contains(&id)) && c.kind
                            == CallKind::Group && c.destination == g,
                        None => false,
                    };
                    if !falls {
                        self.group_floor.insert(g, call);
                    }
                },
                None => {},
            }
            n = rest.len();
        }
        assert(rest@.dom() =~= Set::<u32>::empty());
        assert(self.group_floor@ =~= whole.restrict(
            whole.dom().filter(|g: u32| !w.floor_falls(g, id)),
        ));
    }

    /// Removes every trace of a client that has left.
    pub fn cleanup_client(&mut self, id: ClientId)
        ensures
            final(self)@ == old(self)@.without_client(id),
    {
        let gone = NotOf { id };
        let inhabited = Inhabited;
        self.clients.remove(&id);
        self.subscribers.retain(&gone);
        self.leave_groups(id);
        self.group_clients.retain(&inhabited);
        self.drop_floors(id);
        self.calls.retain(&gone);
        self.sds_routes.retain(&gone);
        proof {
            let want = old(self)@.without_client(id);
            assert(self@.subscribers =~= want.subscribers);
            assert(self@.group_clients =~= want.group_clients);
            assert(self@.calls =~= want.calls);
            assert(self@.sds_routes =~= want.sds_routes);
            assert(self@.group_floor =~= want.group_floor);
        }
    }
}

/// After a client has left nothing refers to it: it is not connected, no
/// subscriber is registered through it, no group, call or short-data
/// transaction involves it, and no group is left without a member.
pub proof fn cleanup_leaves_no_trace(w: World, id: Id)
    ensures
        ({
            let after = w.without_client(id);
            &&& !after.clients.dom().contains(id)
            &&& forall|i: u32| #[trigger]
                after.subscribers.dom().contains(i) ==> after.subscribers[i].client_id != id
            &&& forall|g: u32| #[trigger]
                after.group_clients.dom().contains(g) ==> !after.group_clients[g].contains(id)
                    && after.group_clients[g] != Set::<Id>::empty()
            &&& forall|c: Id| #[trigger]
                after.calls.dom().contains(c) ==> !after.calls[c].involves(id)
            &&& forall|s: Id| #[trigger]
                after.sds_routes.dom().contains(s) ==> after.sds_routes[s].source_client != id
                    && !after.sds_routes[s].targets.contains(id)
        }),
{
}

/// What a client that leaves had no part in stays as it was.
pub proof fn cleanup_spares_the_others(w: World, id: Id)
    ensures
        ({
            let after = w.without_client(id);
            &&& forall|c: Id|
                c != id && w.clients.dom().contains(c) ==> #[trigger] after.clients.dom().contains(
                    c,
                ) && after.clients[c] == w.clients[c]
            &&& forall|i: u32|
                w.subscribers.dom().contains(i) && w.subscribers[i].client_id != id ==> #[trigger] after.subscribers.dom().contains(
                i) && after.subscribers[i] == w.subscribers[i]
            &&& forall|c: Id|
                w.calls.dom().contains(c) && !w.calls[c].involves(id) ==> #[trigger] after.calls.dom().contains(
                c) && after.calls[c] == w.calls[c]
            &&& forall|g: u32, c: Id|
                c != id && w.group_clients.dom().contains(g)
                    && #[trigger] w.group_clients[g].contains(c)
                    ==> after.group_clients.dom().contains(g) && after.group_clients[g].contains(c)
        }),
{
    let after = w.without_client(id);
    assert forall|g: u32, c: Id|
        c != id && w.group_clients.dom().contains(g) && #[trigger] w.group_clients[g].contains(
            c,
        ) implies after.group_clients.dom().contains(g) && after.group_clients[g].contains(c) by {
        let left = w.group_clients.map_values(|s: Set<Id>| s.remove(id));
        assert(left.dom().contains(g));
        assert(left[g].contains(c));
        assert(!Set::<Id>::empty().contains(c));
        assert(after.group_clients.dom().contains(g));
        assert(after.group_clients[g] == left[g]);
    }
}

/// Cleaning up a client twice changes nothing more.
pub proof fn cleanup_is_idempotent(w: World, id: Id)
    ensures
        w.without_client(id).without_client(id) == w.without_client(id),
{
    let a = w.without_client(id);
    let b = a.without_client(id);
    assert(b.clients =~= a.clients);
    assert(b.subscribers =~= a.subscribers);
    assert(a.group_clients.map_values(|s: Set<Id>| s.remove(id)) =~= a.group_clients) by {
        assert forall|g: u32| a.group_clients.dom().contains(g) implies #[trigger] a.group_clients[g].remove(
            id,
        ) == a.group_clients[g] by {
            assert(a.group_clients[g].remove(id) =~= a.group_clients[g]);
        }
    }
    assert(b.group_clients =~= a.group_clients);
    assert(b.calls =~= a.calls);
    assert(b.group_floor =~= a.group_floor);
    assert(b.sds_routes =~= a.sds_routes);
}

/// Purging keeps what is fresh and nothing that has expired, and nothing else
/// changes.
pub proof fn purge_drops_exactly_the_expired(w: World, now: u64, ttl: u64)
    ensures
        ({
            let after = w.purged(now, ttl);
            &&& forall|n: Seq<char>| #[trigger]
                after.digest_nonces.dom().contains(n) <==> w.digest_nonces.dom().contains(n)
                    && nonce_fresh(now, w.digest_nonces[n])
            &&& forall|t: Seq<char>| #[trigger]
                after.auth_sessions.dom().contains(t) <==> w.auth_sessions.dom().contains(t)
                    && session_fresh(now, w.auth_sessions[t].at, ttl)
            &&& forall|s: Id| #[trigger]
                after.sds_routes.dom().contains(s) <==> w.sds_routes.dom().contains(s) && sds_fresh(
                    now,
                    w.sds_routes[s].created_at,
                )
            &&& after.clients == w.clients
            &&& after.subscribers == w.subscribers
            &&& after.calls == w.calls
        }),
{
}

/// Observing versions never lowers the version of any connection.
pub proof fn promote_is_monotone(w: World, id: Id, seen: ConnVersion, other: Id)
    ensures
        w.promote(id, seen).version_of(other).number() >= w.version_of(other).number(),
        w.clients.dom().contains(id) ==> w.promote(id, seen).version_of(id).number()
            >= seen.number(),
{
}

/// A nonce lasts two minutes, a short-data transaction one minute, and a session as many
/// seconds as the operator chose, at least one. A purge drops exactly what has lasted that
/// long, keeps the rest as it is, and touches nothing else.
pub proof fn things_last_their_time(w: World, now: u64, ttl: u64)
    ensures
        ({
            let after = w.purged(now, ttl);
            let seconds = if ttl == 0 {
                1int
            } else {
                ttl as int
            };
            &&& forall|n: Seq<char>| #[trigger]
                after.digest_nonces.dom().contains(n) <==> w.digest_nonces.dom().contains(n) && now
                    < w.digest_nonces[n] + 120 * 1_000_000_000
            &&& forall|n: Seq<char>| #[trigger]
                after.digest_nonces.dom().contains(n) ==> after.digest_nonces[n]
                    == w.digest_nonces[n]
            &&& forall|t: Seq<char>| #[trigger]
                after.auth_sessions.dom().contains(t) <==> w.auth_sessions.dom().contains(t) && now
                    < w.auth_sessions[t].at + seconds * 1_000_000_000
            &&& forall|t: Seq<char>| #[trigger]
                after.auth_sessions.dom().contains(t) ==> after.auth_sessions[t]
                    == w.auth_sessions[t]
            &&& forall|s: Id| #[trigger]
                after.sds_routes.dom().contains(s) <==> w.sds_routes.dom().contains(s) && now
                    < w.sds_routes[s].created_at + 60 * 1_000_000_000
            &&& forall|s: Id| #[trigger]
                after.sds_routes.dom().contains(s) ==> after.sds_routes[s] == w.sds_routes[s]
            &&& after.clients == w.clients
            &&& after.subscribers == w.subscribers
            &&& after.group_clients == w.group_clients
            &&& after.calls == w.calls
            &&& after.group_floor == w.group_floor
        }),
{
    assert(ttl > 0 ==> ttl * 1_000_000_000 > 0);
}

/// A client that leaves takes with it exactly the subscribers registered on it, its places
/// in groups, the calls and the short-data transactions that it takes part in, and the
/// floors of its group calls; a group that it leaves empty is forgotten.
pub proof fn cleanup_takes_exactly_what_is_its_own(w: World, id: Id)
    ensures
        ({
            let after = w.without_client(id);
            &&& after.clients == w.clients.remove(id)
            &&& forall|i: u32| #[trigger]
                after.subscribers.dom().contains(i) <==> w.subscribers.dom().contains(i)
                    && w.subscribers[i].client_id != id
            &&& forall|g: u32, x: Id|
                after.group_clients.dom().contains(g) ==> (
                #[trigger] after.group_clients[g].contains(x) <==> x != id
                    && w.group_clients[g].contains(x))
            &&& forall|g: u32| #[trigger]
                after.group_clients.dom().contains(g) ==> w.group_clients.dom().contains(g)
            &&& forall|c: Id| #[trigger]
                after.calls.dom().contains(c) <==> w.calls.dom().contains(c) && w.calls[c].owner
                    != id && !w.calls[c].peers.contains(id)
            &&& forall|g: u32| #[trigger]
                after.group_floor.dom().contains(g) <==> w.group_floor.dom().contains(g) && !(
                w.calls.dom().contains(w.group_floor[g]) && (w.calls[w.group_floor[g]].owner == id
                    || w.calls[w.group_floor[g]].peers.contains(id))
                    && w.calls[w.group_floor[g]].kind == CallKind::Group
                    && w.calls[w.group_floor[g]].destination == g)
            &&& forall|g: u32| #[trigger]
                after.group_floor.dom().contains(g) ==> after.group_floor[g] == w.group_floor[g]
            &&& forall|s: Id| #[trigger]
                after.sds_routes.dom().contains(s) <==> w.sds_routes.dom().contains(s)
                    && w.sds_routes[s].source_client != id && !w.sds_routes[s].targets.contains(id)
            &&& after.digest_nonces == w.digest_nonces
            &&& after.auth_sessions == w.auth_sessions
        }),
{
}

/// A connection takes the higher of the version that it had and the one that was seen on
/// it; no other connection changes, and nothing else of this one.
pub proof fn versions_rise_to_what_was_seen(w: World, id: Id, seen: ConnVersion)
    requires
        w.clients.dom().contains(id),
    ensures
        ({
            let after = w.promote(id, seen);
            &&& after.clients.dom() == w.clients.dom()
            &&& after.clients[id].version == (if w.clients[id].version == ConnVersion::V1 || seen
                == ConnVersion::V1 {
                ConnVersion::V1
            } else {
                ConnVersion::V0
            })
            &&& after.clients[id] == (ClientModel {
                version: after.clients[id].version,
                ..w.clients[id]
            })
            &&& forall|x: Id|
                x != id && #[trigger] w.clients.dom().contains(x) ==> after.clients[x]
                    == w.clients[x]
            &&& after == (World { clients: after.clients, ..w })
        }),
{
    assert(w.promote(id, seen).clients.dom() =~= w.clients.dom());
}

/// The mode header names a terminal or a peer, in either case and with white space around
/// it; anything else, and no header, is a basestation.
pub proof fn modes_are_named(a: Seq<char>, name: Seq<char>, b: Seq<char>)
    requires
        text::trim(a + name + b) == name,
    ensures
        text::lower_text(name) == text::lower_text("Terminal"@) ==> mode_of_header(
            Some(a + name + b),
        ) == ClientMode::Terminal,
        text::lower_text(name) == text::lower_text("Peer"@) ==> mode_of_header(Some(a + name + b))
            == ClientMode::Peer,
        text::lower_text(name) != text::lower_text("Terminal"@) && text::lower_text(name)
            != text::lower_text("Peer"@) ==> mode_of_header(Some(a + name + b))
            == ClientMode::Basestation,
        mode_of_header(None) == ClientMode::Basestation,
{
    reveal_strlit("Terminal");
    reveal_strlit("Peer");
    assert(text::lower_text("Terminal"@).len() == 8);
    assert(text::lower_text("Peer"@).len() == 4);
}

} // verus!

//! What the operator configures.
use crate::router::RoutingPolicy;
use crate::table::Table;
use crate::telemetry::Place;
use crate::text::same_text;
use vstd::prelude::*;

verus! {

/// Persistent history.
#[derive(Debug, Clone)]
pub struct StorageConfig {
    /// Append completed calls and short data to a log and replay it on start.
    pub enabled: bool,
    /// Path of the append-only history log.
    pub path: String,
}

impl StorageConfig {
    /// Whether every setting has its default.
    pub open spec fn is_default(self) -> bool {
        &&& self.enabled
        &&& self.path@ == "brew-history.bin"@
    }
}

impl Default for StorageConfig {
    fn default() -> (r: Self)
        ensures
            r.is_default(),
    {
        StorageConfig { enabled: true, path: "brew-history.bin".to_owned() }
    }
}

#[derive(Debug, Clone)]
pub struct TlsConfig {
    pub enabled: bool,
    pub cert_path: String,
    pub key_path: String,
}

impl TlsConfig {
    /// Whether every setting has its default.
    pub open spec fn is_default(self) -> bool {
        &&& !self.enabled
        &&& self.cert_path@ == "cert.pem"@
        &&& self.key_path@ == "key.pem"@
    }
}

impl Default for TlsConfig {
    fn default() -> (r: Self)
        ensures
            r.is_default(),
    {
        TlsConfig {
            enabled: false,
            cert_path: "cert.pem".to_owned(),
            key_path: "key.pem".to_owned(),
        }
    }
}

/// Digest authentication of Brew clients.
#[derive(Debug)]
pub struct AuthConfig {
    pub enabled: bool,
    pub realm: String,
    /// Passwords by user name.
    pub users: Table<String, String>,
    pub session_ttl_seconds: u64,
}

impl AuthConfig {
    /// Whether every setting has its default.
    pub open spec fn is_default(self) -> bool {
        &&& !self.enabled
        &&& self.realm@ == "brew-server"@
        &&& self.users@ == Map::<Seq<char>, Seq<char>>::empty()
        &&& self.session_ttl_seconds == 300
    }
}

impl Default for AuthConfig {
    fn default() -> (r: Self)
        ensures
            r.is_default(),
    {
        AuthConfig {
            enabled: false,
            realm: "brew-server".to_owned(),
            users: Table::new(),
            session_ttl_seconds: 300,
        }
    }
}

/// A SIP extension: the secret with which it registers and calls.
#[derive(Debug, Clone)]
pub struct SipExtensionConfig {
    pub password: String,
    pub display_name: String,
    /// Subscriber that the extension stands for; 0 for none.
    pub issi: u32,
    pub allow_outbound: bool,
}

pub struct ExtensionModel {
    pub password: Seq<char>,
    pub display_name: Seq<char>,
    pub issi: u32,
    pub allow_outbound: bool,
}

impl View for SipExtensionConfig {
    type V = ExtensionModel;

    open spec fn view(&self) -> ExtensionModel {
        ExtensionModel {
            password: self.password@,
            display_name: self.display_name@,
            issi: self.issi,
            allow_outbound: self.allow_outbound,
        }
    }
}

impl Default for SipExtensionConfig {
    fn default() -> (r: Self)
        ensures
            r@ == (ExtensionModel {
                password: Seq::empty(),
                display_name: Seq::empty(),
                issi: 0,
                allow_outbound: true,
            }),
    {
        SipExtensionConfig {
            password: String::new(),
            display_name: String::new(),
            issi: 0,
            allow_outbound: true,
        }
    }
}

/// How a trunk is tied to its remote peer.
#[derive(Debug, Clone, Copy, PartialEq, Eq, Structural)]
pub enum TrunkDirection {
    /// The peer registers here.
    Inbound,
    /// This server registers with the peer.
    Outbound,
    /// Nobody registers; the peer is known by its address.
    Peer,
}

impl Default for TrunkDirection {
    fn default() -> (r: Self)
        ensures
            r == TrunkDirection::Peer,
    {
        TrunkDirection::Peer
    }
}

impl TrunkDirection {
    /// Name of the direction on the dashboard.
    pub open spec fn name(self) -> Seq<char> {
        match self {
            TrunkDirection::Inbound => "inbound"@,
            TrunkDirection::Outbound => "outbound"@,
            TrunkDirection::Peer => "peer"@,
        }
    }

    pub fn as_str(self) -> (r: &'static str)
        ensures
            r@ == self.name(),
    {
        match self {
            TrunkDirection::Inbound => "inbound",
            TrunkDirection::Outbound => "outbound",
            TrunkDirection::Peer => "peer",
        }
    }
}

/// A SIP trunk to a gateway.
#[derive(Debug, Clone)]
pub struct SipTrunkConfig {
    pub direction: TrunkDirection,
    /// `host:port` of the peer.
    pub remote_host: String,
    /// Name to authenticate with; the trunk's own name when empty.
    pub username: String,
    pub password: String,
    pub realm: String,
    pub register_interval_seconds: u64,
    pub enabled: bool,
}

pub struct TrunkModel {
    pub direction: TrunkDirection,
    pub remote_host: Seq<char>,
    pub username: Seq<char>,
    pub password: Seq<char>,
    pub realm: Seq<char>,
    pub register_interval_seconds: u64,
    pub enabled: bool,
}

impl View for SipTrunkConfig {
    type V = TrunkModel;

    open spec fn view(&self) -> TrunkModel {
        TrunkModel {
            direction: self.direction,
            remote_host: self.remote_host@,
            username: self.username@,
            password: self.password@,
            realm: self.realm@,
            register_interval_seconds: self.register_interval_seconds,
            enabled: self.enabled,
        }
    }
}

impl Default for SipTrunkConfig {
    fn default() -> (r: Self)
        ensures
            r@ == (TrunkModel {
                direction: TrunkDirection::Peer,
                remote_host: Seq::empty(),
                username: Seq::empty(),
                password: Seq::empty(),
                realm: Seq::empty(),
                register_interval_seconds: 300,
                enabled: true,
            }),
    {
        SipTrunkConfig {
            direction: TrunkDirection::Peer,
            remote_host: String::new(),
            username: String::new(),
            password: String::new(),
            realm: String::new(),
            register_interval_seconds: 300,
            enabled: true,
        }
    }
}

/// One side of a voice route.
#[derive(Debug, Clone)]
pub enum RouteEndpoint {
    SipExtension { user: String },
    /// A trunk; `number` is what it dials, or is matched by.
    SipTrunk { trunk: String, number: String },
    BrewPrivate { issi: u32 },
    BrewGroup { gssi: u32 },
}

pub enum EndpointModel {
    SipExtension { user: Seq<char> },
    SipTrunk { trunk: Seq<char>, number: Seq<char> },
    BrewPrivate { issi: u32 },
    BrewGroup { gssi: u32 },
}

impl View for RouteEndpoint {
    type V = EndpointModel;

    open spec fn view(&self) -> EndpointModel {
        match *self {
            RouteEndpoint::SipExtension { user } => EndpointModel::SipExtension { user: user@ },
            RouteEndpoint::SipTrunk { trunk, number } => EndpointModel::SipTrunk {
                trunk: trunk@,
                number: number@,
            },
            RouteEndpoint::BrewPrivate { issi } => EndpointModel::BrewPrivate { issi },
            RouteEndpoint::BrewGroup { gssi } => EndpointModel::BrewGroup { gssi },
        }
    }
}

/// A rule that bridges calls: from some origin, to some dialled destination.
#[derive(Debug, Clone)]
pub struct VoiceRouteConfig {
    pub name: String,
    /// `*` matches anything, a trailing `*` a prefix, anything else itself.
    pub match_pattern: String,
    pub to: Option<RouteEndpoint>,
    /// Only calls from this endpoint match, where it is given.
    pub from: Option<RouteEndpoint>,
    /// Literal prefix taken off the dialled string before it is handed on.
    /// Matching sees the whole string.
    pub strip_prefix: String,
    pub enabled: bool,
}

pub struct RouteModel {
    pub name: Seq<char>,
    pub match_pattern: Seq<char>,
    pub to: Option<EndpointModel>,
    pub from: Option<EndpointModel>,
    pub strip_prefix: Seq<char>,
    pub enabled: bool,
}

/// An optional endpoint by its model.
pub open spec fn opt_endpoint(o: Option<RouteEndpoint>) -> Option<EndpointModel> {
    match o {
        Some(e) => Some(e@),
        None => None,
    }
}

impl View for VoiceRouteConfig {
    type V = RouteModel;

    open spec fn view(&self) -> RouteModel {
        RouteModel {
            name: self.name@,
            match_pattern: self.match_pattern@,
            to: opt_endpoint(self.to),
            from: opt_endpoint(self.from),
            strip_prefix: self.strip_prefix@,
            enabled: self.enabled,
        }
    }
}

impl Default for VoiceRouteConfig {
    fn default() -> (r: Self)
        ensures
            r@ == (RouteModel {
                name: Seq::empty(),
                match_pattern: "*"@,
                to: None,
                from: None,
                strip_prefix: Seq::empty(),
                enabled: true,
            }),
    {
        VoiceRouteConfig {
            name: String::new(),
            match_pattern: "*".to_owned(),
            to: None,
            from: None,
            strip_prefix: String::new(),
            enabled: true,
        }
    }
}

/// Routes by their models.
pub open spec fn route_models(v: Seq<VoiceRouteConfig>) -> Seq<RouteModel> {
    v.map_values(|r: VoiceRouteConfig| r@)
}

/// Position of the first route with a name, or the number of routes.
pub open spec fn route_named(routes: Seq<RouteModel>, name: Seq<char>) -> int
    decreases routes.len(),
{
    if routes.len() == 0 {
        0
    } else if routes[0].name == name {
        0
    } else {
        1 + route_named(routes.drop_first(), name)
    }
}

proof fn route_named_unique(routes: Seq<RouteModel>, name: Seq<char>, k: int)
    requires
        0 <= k <= routes.len(),
        forall|i: int| 0 <= i < k ==> (#[trigger] routes[i]).name != name,
        k < routes.len() ==> routes[k].name == name,
    ensures
        k == route_named(routes, name),
    decreases routes.len(),
{
    if routes.len() > 0 && routes[0].name != name {
        let t = routes.drop_first();
        assert forall|i: int| 0 <= i < k - 1 implies (#[trigger] t[i]).name != name by {
            assert(routes[i + 1].name != name);
        }
        route_named_unique(t, name, k - 1);
    }
}

/// The routes with one added or replaced: a route of that name keeps its place,
/// a new name goes to the end.
pub open spec fn routes_with(routes: Seq<RouteModel>, route: RouteModel) -> Seq<RouteModel> {
    let k = route_named(routes, route.name);
    if k < routes.len() {
        routes.update(k, route)
    } else {
        routes.push(route)
    }
}

/// Adds a route, or replaces the one with its name.
pub fn upsert_route(routes: &mut Vec<VoiceRouteConfig>, route: VoiceRouteConfig)
    ensures
        route_models(final(routes)@) == routes_with(route_models(old(routes)@), route@),
{
    let mut i: usize = 0;
    while i < routes.len() && !same_text(routes[i].name.as_str(), route.name.as_str())
        invariant
            i <= routes@.len(),
            routes@ == old(routes)@,
            forall|k: int|
                0 <= k < i ==> (#[trigger] route_models(routes@)[k]).name != route@.name,
        decreases routes@.len() - i,
    {
        i += 1;
    }
    proof {
        if i < routes@.len() {
            assert(route_models(routes@)[i as int] == routes@[i as int]@);
        }
        route_named_unique(route_models(routes@), route@.name, i as int);
    }
    if i < routes.len() {
        routes.set(i, route);
        assert(route_models(routes@) =~= route_models(old(routes)@).update(i as int, route@));
    } else {
        routes.push(route);
        assert(route_models(routes@) =~= route_models(old(routes)@).push(route@));
    }
}

/// The routes without those of a name.
pub open spec fn routes_without(routes: Seq<RouteModel>, name: Seq<char>) -> Seq<RouteModel> {
    routes.filter(|r: RouteModel| r.name != name)
}

/// Deletes the routes with a name.
pub fn delete_route(routes: &mut Vec<VoiceRouteConfig>, name: &str)
    ensures
        route_models(final(routes)@) == routes_without(route_models(old(routes)@), name@),
{
    let ghost whole = route_models(routes@);
    let ghost want = |r: RouteModel| r.name != name@;
    let ghost n = whole.len();
    let mut i: usize = 0;
    assert(whole.subrange(0, 0).filter(want) =~= Seq::<RouteModel>::empty());
    assert(route_models(routes@) =~= whole.subrange(0, 0).filter(want) + whole.subrange(
        0,
        n as int,
    ));
    let ghost mut seen: int = 0;
    while i < routes.len()
        invariant
            0 <= seen <= whole.len(),
            n == whole.len(),
            i <= routes@.len(),
            want == (|r: RouteModel| r.name != name@),
            i == whole.subrange(0, seen).filter(want).len(),
            routes@.len() == i + (whole.len() - seen),
            route_models(routes@) == whole.subrange(0, seen).filter(want) + whole.subrange(
                seen,
                n as int,
            ),
        decreases routes@.len() - i,
    {
        let ghost a = whole.subrange(0, seen).filter(want);
        proof {
            assert(route_models(routes@)[i as int] == whole[seen]);
            assert(route_models(routes@)[i as int] == routes@[i as int]@);
            let b = whole.subrange(0, seen + 1);
            assert(b.drop_last() =~= whole.subrange(0, seen));
            assert(b.last() == whole[seen]);
            reveal(Seq::filter);
        }
        if same_text(routes[i].name.as_str(), name) {
            let ghost before = route_models(routes@);
            routes.remove(i);
            assert(route_models(routes@) =~= before.remove(i as int));
            assert(route_models(routes@) =~= a + whole.subrange(seen + 1, n as int));
        } else {
            assert(a.push(whole[seen]) + whole.subrange(seen + 1, n as int) =~= a
                + whole.subrange(seen, n as int));
            i += 1;
        }
        proof {
            seen = seen + 1;
        }
    }
    proof {
        assert(seen == n);
        assert(whole.subrange(0, seen) =~= whole);
        assert(route_models(routes@) =~= whole.filter(want));
    }
}

/// A peer server to dial.
#[derive(Debug, Clone)]
pub struct FederationPeerConfig {
    pub name: String,
    pub remote_host: String,
    pub path: String,
    pub username: String,
    pub password: String,
    pub reconnect_interval_seconds: u64,
    pub enabled: bool,
}

impl FederationPeerConfig {
    /// Whether every setting has its default.
    pub open spec fn is_default(self) -> bool {
        &&& self.name@ == Seq::<char>::empty()
        &&& self.remote_host@ == Seq::<char>::empty()
        &&& self.path@ == "/brew"@
        &&& self.username@ == Seq::<char>::empty()
        &&& self.password@ == Seq::<char>::empty()
        &&& self.reconnect_interval_seconds == 15
        &&& self.enabled
    }
}

impl Default for FederationPeerConfig {
    fn default() -> (r: Self)
        ensures
            r.is_default(),
    {
        FederationPeerConfig {
            name: String::new(),
            remote_host: String::new(),
            path: "/brew".to_owned(),
            username: String::new(),
            password: String::new(),
            reconnect_interval_seconds: 15,
            enabled: true,
        }
    }
}

/// Links to other servers.
#[derive(Debug)]
pub struct FederationConfig {
    pub enabled: bool,
    pub peers: Vec<FederationPeerConfig>,
}

impl FederationConfig {
    pub open spec fn is_default(self) -> bool {
        !self.enabled && self.peers@.len() == 0
    }
}

impl Default for FederationConfig {
    fn default() -> (r: Self)
        ensures
            r.is_default(),
    {
        FederationConfig { enabled: false, peers: Vec::new() }
    }
}

/// Where a basestation stands.
#[derive(Debug)]
pub struct BtsLocationConfig {
    pub name: String,
    pub place: Place,
}

pub struct BtsLocationModel {
    pub name: Seq<char>,
    pub place: Place,
}

impl View for BtsLocationConfig {
    type V = BtsLocationModel;

    open spec fn view(&self) -> BtsLocationModel {
        BtsLocationModel { name: self.name@, place: self.place }
    }
}

/// Forwarding of positions to APRS-IS.
#[derive(Debug, Clone)]
pub struct AprsConfig {
    pub enabled: bool,
    pub server: String,
    pub callsign: String,
    pub passcode: String,
    pub symbol_table: char,
    pub symbol_code: char,
    pub comment: String,
    pub object_name_prefix: String,
    pub min_report_interval_seconds: u64,
    pub reconnect_interval_seconds: u64,
}

impl AprsConfig {
    pub open spec fn is_default(self) -> bool {
        &&& !self.enabled
        &&& self.server@ == "rotate.aprs2.net:14580"@
        &&& self.callsign@ == ""@
        &&& self.passcode@ == ""@
        &&& self.symbol_table == '/'
        &&& self.symbol_code == 'j'
        &&& self.comment@ == "TETRA MS via brew-server"@
        &&& self.object_name_prefix@ == "MS"@
        &&& self.min_report_interval_seconds == 60
        &&& self.reconnect_interval_seconds == 15
    }
}

impl Default for AprsConfig {
    fn default() -> (r: Self)
        ensures
            r.is_default(),
    {
        AprsConfig {
            enabled: false,
            server: "rotate.aprs2.net:14580".to_owned(),
            callsign: "".to_owned(),
            passcode: "".to_owned(),
            symbol_table: '/',
            symbol_code: 'j',
            comment: "TETRA MS via brew-server".to_owned(),
            object_name_prefix: "MS".to_owned(),
            min_report_interval_seconds: 60,
            reconnect_interval_seconds: 15,
        }
    }
}

/// Call-routing choices with their defaults.
impl Default for RoutingPolicy {
    fn default() -> (r: Self)
        ensures
            r == (RoutingPolicy {
                route_without_affiliations: false,
                fallback_broadcast_when_no_affiliations: true,
                allow_multiple_calls_per_group: false,
                higher_priority_number_wins: true,
                preempt_cause: 1,
                session_ttl_seconds: 300,
            }),
    {
        RoutingPolicy {
            route_without_affiliations: false,
            fallback_broadcast_when_no_affiliations: true,
            allow_multiple_calls_per_group: false,
            higher_priority_number_wins: true,
            preempt_cause: 1,
            session_ttl_seconds: 300,
        }
    }
}

/// Updating a route keeps every other route and the order of all.
pub proof fn upsert_keeps_the_others(routes: Seq<RouteModel>, route: RouteModel)
    ensures
        ({
            let after = routes_with(routes, route);
            &&& after.len() >= routes.len()
            &&& forall|i: int|
                0 <= i < routes.len() && (#[trigger] routes[i]).name != route.name ==> after[i]
                    == routes[i]
        }),
    decreases routes.len(),
{
    route_named_hits(routes, route.name);
}

proof fn route_named_hits(routes: Seq<RouteModel>, name: Seq<char>)
    ensures
        0 <= route_named(routes, name) <= routes.len(),
        route_named(routes, name) < routes.len() ==> routes[route_named(routes, name)].name == name,
    decreases routes.len(),
{
    if routes.len() > 0 && routes[0].name != name {
        route_named_hits(routes.drop_first(), name);
    }
}

/// Seconds between two attempts to connect: as configured, and at least 5.
pub fn reconnect_seconds(configured: u64) -> (r: u64)
    ensures
        r == (if configured < 5 {
            5
        } else {
            configured
        }),
{
    if configured < 5 {
        5
    } else {
        configured
    }
}

/// The listener for what base stations tell.
#[derive(Debug)]
pub struct TelemetryConfig {
    pub enabled: bool,
    /// Address and port to listen on.
    pub listen: String,
    /// Passwords by user name. Without users nobody has to log in.
    pub users: Table<String, String>,
    pub tls: TlsConfig,
}

impl TelemetryConfig {
    /// Whether every setting has its default.
    pub open spec fn is_default(self) -> bool {
        &&& !self.enabled
        &&& self.listen@ == "0.0.0.0:9001"@
        &&& self.users@ == Map::<Seq<char>, Seq<char>>::empty()
        &&& self.tls.is_default()
    }
}

impl Default for TelemetryConfig {
    fn default() -> (r: Self)
        ensures
            r.is_default(),
    {
        TelemetryConfig {
            enabled: false,
            listen: "0.0.0.0:9001".to_owned(),
            users: Table::new(),
            tls: TlsConfig::default(),
        }
    }
}

/// The listener for base stations that take commands.
#[derive(Debug)]
pub struct ControlConfig {
    pub enabled: bool,
    /// Address and port to listen on.
    pub listen: String,
    /// Passwords by user name. Without users nobody has to log in.
    pub users: Table<String, String>,
    pub tls: TlsConfig,
}

impl ControlConfig {
    /// Whether every setting has its default.
    pub open spec fn is_default(self) -> bool {
        &&& !self.enabled
        &&& self.listen@ == "0.0.0.0:9002"@
        &&& self.users@ == Map::<Seq<char>, Seq<char>>::empty()
        &&& self.tls.is_default()
    }
}

impl Default for ControlConfig {
    fn default() -> (r: Self)
        ensures
            r.is_default(),
    {
        ControlConfig {
            enabled: false,
            listen: "0.0.0.0:9002".to_owned(),
            users: Table::new(),
            tls: TlsConfig::default(),
        }
    }
}

/// The listener of the dashboard.
#[derive(Debug)]
pub struct DashboardConfig {
    pub enabled: bool,
    /// Address and port to listen on.
    pub listen: String,
    /// Passwords by user name. Without users nobody has to log in.
    pub users: Table<String, String>,
    /// Users that may see and change the settings; without any, every user may.
    pub admins: Vec<String>,
    pub realm: String,
    pub tls: TlsConfig,
}

impl DashboardConfig {
    /// Whether every setting has its default.
    pub open spec fn is_default(self) -> bool {
        &&& self.enabled
        &&& self.listen@ == "0.0.0.0:9003"@
        &&& self.users@ == Map::<Seq<char>, Seq<char>>::empty()
        &&& self.admins@.len() == 0
        &&& self.realm@ == "brew-server-dashboard"@
        &&& self.tls.is_default()
    }
}

impl Default for DashboardConfig {
    fn default() -> (r: Self)
        ensures
            r.is_default(),
    {
        DashboardConfig {
            enabled: true,
            listen: "0.0.0.0:9003".to_owned(),
            users: Table::new(),
            admins: Vec::new(),
            realm: "brew-server-dashboard".to_owned(),
            tls: TlsConfig::default(),
        }
    }
}

/// The SIP side.
#[derive(Debug)]
pub struct SipConfig {
    pub enabled: bool,
    /// Address and port for signalling.
    pub listen: String,
    /// Address that peers are told; that of the socket where empty.
    pub advertised_host: String,
    /// Ports for media, both ends included.
    pub rtp_port_min: u16,
    pub rtp_port_max: u16,
    pub realm: String,
    /// How long a registration lasts that does not say so itself.
    pub registration_ttl_seconds: u64,
    /// How long a call may last; there is no limit where zero.
    pub max_call_duration_seconds: u64,
    /// Extensions by user part.
    pub extensions: Table<String, SipExtensionConfig>,
    /// Trunks by name.
    pub trunks: Table<String, SipTrunkConfig>,
    /// Routes, the first that matches wins.
    pub routes: Vec<VoiceRouteConfig>,
}

impl SipConfig {
    /// Whether every setting has its default.
    pub open spec fn is_default(self) -> bool {
        &&& !self.enabled
        &&& self.listen@ == "0.0.0.0:5060"@
        &&& self.advertised_host@ == Seq::<char>::empty()
        &&& self.rtp_port_min == 16000
        &&& self.rtp_port_max == 17000
        &&& self.realm@ == "brew-server"@
        &&& self.registration_ttl_seconds == 3600
        &&& self.max_call_duration_seconds == 14400
        &&& self.extensions@ == Map::<Seq<char>, ExtensionModel>::empty()
        &&& self.trunks@ == Map::<Seq<char>, TrunkModel>::empty()
        &&& self.routes@.len() == 0
    }
}

impl Default for SipConfig {
    fn default() -> (r: Self)
        ensures
            r.is_default(),
    {
        SipConfig {
            enabled: false,
            listen: "0.0.0.0:5060".to_owned(),
            advertised_host: String::new(),
            rtp_port_min: 16000,
            rtp_port_max: 17000,
            realm: "brew-server".to_owned(),
            registration_ttl_seconds: 3600,
            max_call_duration_seconds: 14400,
            extensions: Table::new(),
            trunks: Table::new(),
            routes: Vec::new(),
        }
    }
}

/// All that the operator configures.
#[derive(Debug)]
pub struct Config {
    /// Address and port of the Brew listener.
    pub listen: String,
    pub websocket_path: String,
    pub websocket_subprotocol: String,
    pub routing: RoutingPolicy,
    /// A call that lasts longer is ended; zero lets it last.
    pub max_call_duration_seconds: u64,
    pub auth: AuthConfig,
    pub tls: TlsConfig,
    pub telemetry: TelemetryConfig,
    pub control: ControlConfig,
    pub dashboard: DashboardConfig,
    pub storage: StorageConfig,
    pub sip: SipConfig,
    pub aprs: AprsConfig,
    pub federation: FederationConfig,
    /// By the user name of the basestation.
    pub bts_locations: Table<String, BtsLocationConfig>,
}

impl Default for Config {
    fn default() -> (r: Self)
        ensures
            r.listen@ == "0.0.0.0:9000"@,
            r.websocket_path@ == "/brew"@,
            r.websocket_subprotocol@ == "brew"@,
            r.routing == (RoutingPolicy {
                route_without_affiliations: false,
                fallback_broadcast_when_no_affiliations: true,
                allow_multiple_calls_per_group: false,
                higher_priority_number_wins: true,
                preempt_cause: 1,
                session_ttl_seconds: 300,
            }),
            r.max_call_duration_seconds == 14400,
            r.auth.is_default(),
            r.tls.is_default(),
            r.telemetry.is_default(),
            r.control.is_default(),
            r.dashboard.is_default(),
            r.storage.is_default(),
            r.sip.is_default(),
            r.aprs.is_default(),
            r.federation.is_default(),
            r.bts_locations@ == Map::<Seq<char>, BtsLocationModel>::empty(),
    {
        Config {
            listen: "0.0.0.0:9000".to_owned(),
            websocket_path: "/brew".to_owned(),
            websocket_subprotocol: "brew".to_owned(),
            routing: RoutingPolicy::default(),
            max_call_duration_seconds: 14400,
            auth: AuthConfig::default(),
            tls: TlsConfig::default(),
            telemetry: TelemetryConfig::default(),
            control: ControlConfig::default(),
            dashboard: DashboardConfig::default(),
            storage: StorageConfig::default(),
            sip: SipConfig::default(),
            aprs: AprsConfig::default(),
            federation: FederationConfig::default(),
            bts_locations: Table::new(),
        }
    }
}

/// A route that is set takes the place of the first of its name, or goes to the end where
/// there is none; the others stay where they are. A name that is taken out is gone, and
/// the other routes stay.
pub proof fn routes_are_kept_by_name(routes: Seq<RouteModel>, route: RouteModel, k: int)
    ensures
        (forall|i: int| 0 <= i < routes.len() ==> (#[trigger] routes[i]).name != route.name)
            ==> routes_with(routes, route) == routes.push(route),
        0 <= k < routes.len() && routes[k].name == route.name && (forall|i: int|
            0 <= i < k ==> (#[trigger] routes[i]).name != route.name) ==> routes_with(routes, route)
            == routes.update(k, route),
        forall|r: RouteModel| #[trigger]
            routes_without(routes, route.name).contains(r) <==> routes.contains(r) && r.name
                != route.name,
{
    route_named_hits(routes, route.name);
    route_named_is_first(routes, route.name);
    let keep = |r: RouteModel| r.name != route.name;
    assert forall|r: RouteModel| #[trigger] routes_without(routes, route.name).contains(
        r,
    ) implies routes.contains(r) && r.name != route.name by {
        let i = choose|i: int|
            0 <= i < routes.filter(keep).len() && routes.filter(keep)[i] == r;
        routes.lemma_filter_pred(keep, i);
        routes.lemma_filter_contains_rev(keep, r);
    }
    assert forall|r: RouteModel| routes.contains(r) && r.name != route.name implies #[trigger] routes_without(
        routes,
        route.name,
    ).contains(r) by {
        let i = choose|i: int| 0 <= i < routes.len() && routes[i] == r;
        assert(keep(routes[i]));
        routes.lemma_filter_contains(keep, i);
    }
}

proof fn route_named_is_first(routes: Seq<RouteModel>, name: Seq<char>)
    ensures
        forall|i: int|
            0 <= i < route_named(routes, name) ==> (#[trigger] routes[i]).name != name,
    decreases routes.len(),
{
    if routes.len() > 0 && routes[0].name != name {
        route_named_is_first(routes.drop_first(), name);
        route_named_hits(routes, name);
        assert forall|i: int| 0 <= i < route_named(routes, name) implies (
        #[trigger] routes[i]).name != name by {
            if i > 0 {
                assert(routes[i] == routes.drop_first()[i - 1]);
            }
        }
    }
}

/// What nobody has set: the history is kept and the dashboard is on; everything that lets
/// others in or reaches out is off, nobody is configured, and no two services share an
/// address. A session lasts five minutes, a registration one hour, a call four hours; a
/// peer and the APRS server are dialled again after a quarter of a minute, and a position
/// is reported once a minute.
pub proof fn unset_settings_are_as_told(
    storage: StorageConfig,
    tls: TlsConfig,
    auth: AuthConfig,
    peer: FederationPeerConfig,
    federation: FederationConfig,
    aprs: AprsConfig,
    telemetry: TelemetryConfig,
    control: ControlConfig,
    dashboard: DashboardConfig,
    sip: SipConfig,
)
    requires
        storage.is_default(),
        tls.is_default(),
        auth.is_default(),
        peer.is_default(),
        federation.is_default(),
        aprs.is_default(),
        telemetry.is_default(),
        control.is_default(),
        dashboard.is_default(),
        sip.is_default(),
    ensures
        storage.enabled && dashboard.enabled && peer.enabled,
        !tls.enabled && !auth.enabled && !federation.enabled && !aprs.enabled && !telemetry.enabled
            && !control.enabled && !sip.enabled,
        !telemetry.tls.enabled && !control.tls.enabled && !dashboard.tls.enabled,
        auth.users@.dom() == Set::<Seq<char>>::empty(),
        telemetry.users@.dom() == Set::<Seq<char>>::empty(),
        control.users@.dom() == Set::<Seq<char>>::empty(),
        dashboard.users@.dom() == Set::<Seq<char>>::empty(),
        dashboard.admins@.len() == 0 && federation.peers@.len() == 0 && sip.routes@.len() == 0,
        telemetry.listen@ != control.listen@,
        telemetry.listen@ != dashboard.listen@,
        telemetry.listen@ != sip.listen@,
        control.listen@ != dashboard.listen@,
        control.listen@ != sip.listen@,
        dashboard.listen@ != sip.listen@,
        auth.session_ttl_seconds == 5 * 60,
        sip.registration_ttl_seconds == 60 * 60,
        sip.max_call_duration_seconds == 4 * 60 * 60,
        peer.reconnect_interval_seconds == 15 && aprs.reconnect_interval_seconds == 15,
        aprs.min_report_interval_seconds == 60,
        sip.rtp_port_max - sip.rtp_port_min == 1000 && sip.rtp_port_min == 16000,
{
    reveal_strlit("0.0.0.0:9001");
    reveal_strlit("0.0.0.0:9002");
    reveal_strlit("0.0.0.0:9003");
    reveal_strlit("0.0.0.0:5060");
    assert("0.0.0.0:9001"@[11] == '1' && "0.0.0.0:9002"@[11] == '2' && "0.0.0.0:9003"@[11] == '3'
        && "0.0.0.0:5060"@[11] == '0');
    assert(auth.users@.dom() =~= Set::<Seq<char>>::empty());
}

} // verus!

//! What the dashboard shows of connections, registrations and the configuration of SIP.
//! Passwords are never shown, only whether there is one.
use crate::config;
use crate::config::{
    BtsLocationConfig, BtsLocationModel, EndpointModel, ExtensionModel, RouteEndpoint, SipExtensionConfig, SipTrunkConfig,
    TrunkDirection, TrunkModel, VoiceRouteConfig,
};
use crate::ids::Id;
use crate::protocol;
use crate::state::{ClientMode, ClientModel, Inner, Subscriber, SubscriberModel, World};
use crate::table;
use crate::table::{member_list, Keep, Table};
use crate::telemetry::Place;
use crate::text;
use crate::text::{push_decimal, push_text, same_text};
use vstd::prelude::*;

verus! {

/// An endpoint in short: `ext:USER`, `trunk:NAME`, `trunk:NAME/NUMBER`, `issi:N` or
/// `group:N`.
pub open spec fn endpoint_text(e: EndpointModel) -> Seq<char> {
    match e {
        EndpointModel::SipExtension { user } => "ext:"@ + user,
        EndpointModel::SipTrunk { trunk, number } => if number.len() == 0 {
            "trunk:"@ + trunk
        } else {
            "trunk:"@ + trunk + "/"@ + number
        },
        EndpointModel::BrewPrivate { issi } => "issi:"@ + text::decimal(issi as nat),
        EndpointModel::BrewGroup { gssi } => "group:"@ + text::decimal(gssi as nat),
    }
}

/// Spells an endpoint for the page of the configuration.
pub fn describe_endpoint(e: &RouteEndpoint) -> (r: String)
    ensures
        r@ == endpoint_text(e@),
{
    let mut out = String::new();
    match e {
        RouteEndpoint::SipExtension { user } => {
            push_text(&mut out, "ext:");
            push_text(&mut out, user);
        },
        RouteEndpoint::SipTrunk { trunk, number } => {
            push_text(&mut out, "trunk:");
            push_text(&mut out, trunk);
            let n: usize = text::chars_of(number).len();
            if n > 0 {
                push_text(&mut out, "/");
                push_text(&mut out, number);
            }
        },
        RouteEndpoint::BrewPrivate { issi } => {
            push_text(&mut out, "issi:");
            push_decimal(&mut out, *issi as u64);
        },
        RouteEndpoint::BrewGroup { gssi } => {
            push_text(&mut out, "group:");
            push_decimal(&mut out, *gssi as u64);
        },
    }
    assert(out@ =~= endpoint_text(e@));
    out
}

/// A connected client.
#[derive(Debug)]
pub struct ClientRow {
    pub id: Id,
    pub mode: ClientMode,
    pub version: u8,
    pub remote_addr: Option<String>,
    pub connected_at_ms: u64,
    /// Subscribers that are registered through the client.
    pub registered_issis: usize,
}

#[verifier::ext_equal]
pub struct ClientRowModel {
    pub id: Id,
    pub mode: ClientMode,
    pub version: u8,
    pub remote_addr: Option<Seq<char>>,
    pub connected_at_ms: u64,
    pub registered_issis: nat,
}

impl View for ClientRow {
    type V = ClientRowModel;

    open spec fn view(&self) -> ClientRowModel {
        ClientRowModel {
            id: self.id,
            mode: self.mode,
            version: self.version,
            remote_addr: protocol::opt_text(self.remote_addr),
            connected_at_ms: self.connected_at_ms,
            registered_issis: self.registered_issis as nat,
        }
    }
}

/// What is shown of a client.
pub open spec fn client_row(w: World, id: Id, c: ClientModel) -> ClientRowModel {
    ClientRowModel {
        id,
        mode: c.mode,
        version: c.version.number(),
        remote_addr: c.remote_addr,
        connected_at_ms: c.connected_at_ms,
        registered_issis: table::kept(
            w.subscribers,
            |s: SubscriberModel| s.client_id == id,
        ).dom().len(),
    }
}

struct Through {
    client: Id,
}

impl Keep<Subscriber> for Through {
    closed spec fn wants(&self, v: SubscriberModel) -> bool {
        v.client_id == self.client
    }

    fn keeps(&self, v: &Subscriber) -> (r: bool) {
        v.client_id == self.client
    }
}

fn copy_opt(o: &Option<String>) -> (r: Option<String>)
    ensures
        protocol::opt_text(r) == protocol::opt_text(*o),
{
    match o {
        Some(s) => Some(s.clone()),
        None => None,
    }
}

/// The connected clients.
pub fn client_rows(inner: &Inner) -> (r: Vec<ClientRow>)
    ensures
        r@.len() == inner.clients.entries().len(),
        forall|i: int|
            0 <= i < r@.len() ==> (#[trigger] r@[i])@ == client_row(
                inner@,
                inner.clients.entries()[i].0,
                inner.clients.entries()[i].1,
            ),
{
    let n: usize = inner.clients.len();
    let mut out: Vec<ClientRow> = Vec::new();
    let mut i: usize = 0;
    while i < n
        invariant
            n == inner.clients.entries().len(),
            i <= n,
            out@.len() == i,
            forall|j: int|
                0 <= j < i ==> (#[trigger] out@[j])@ == client_row(
                    inner@,
                    inner.clients.entries()[j].0,
                    inner.clients.entries()[j].1,
                ),
        decreases n - i,
    {
        let (id, c) = inner.clients.entry(i);
        let p = Through { client: *id };
        let registered: usize = inner.subscribers.count_where(&p);
        assert(table::kept(inner@.subscribers, |s: SubscriberModel| p.wants(s)) =~= table::kept(
            inner@.subscribers,
            |s: SubscriberModel| s.client_id == *id,
        ));
        out.push(
            ClientRow {
                id: *id,
                mode: c.mode,
                version: c.version.as_u8(),
                remote_addr: copy_opt(&c.remote_addr),
                connected_at_ms: c.connected_at_ms,
                registered_issis: registered,
            },
        );
        i = i + 1;
    }
    out
}

/// A registered subscriber.
#[derive(Debug)]
pub struct StationRow {
    pub issi: u32,
    pub mode: ClientMode,
    pub basestation_id: Id,
    pub basestation_addr: Option<String>,
    pub groups: Vec<u32>,
}

/// What is shown of a subscriber.
pub open spec fn is_station_row(row: StationRow, w: World, issi: u32, s: SubscriberModel) -> bool {
    &&& row.issi == issi
    &&& row.mode == s.mode
    &&& row.basestation_id == s.client_id
    &&& protocol::opt_text(row.basestation_addr) == (if w.clients.dom().contains(s.client_id) {
        w.clients[s.client_id].remote_addr
    } else {
        None
    })
    &&& row.groups@.to_set() == s.groups
    &&& row.groups@.no_duplicates()
}

/// The registered subscribers, whoever registered them.
pub fn station_rows(inner: &Inner) -> (r: Vec<StationRow>)
    ensures
        r@.len() == inner.subscribers.entries().len(),
        forall|i: int|
            0 <= i < r@.len() ==> is_station_row(
                #[trigger] r@[i],
                inner@,
                inner.subscribers.entries()[i].0,
                inner.subscribers.entries()[i].1,
            ),
{
    let n: usize = inner.subscribers.len();
    let mut out: Vec<StationRow> = Vec::new();
    let mut i: usize = 0;
    while i < n
        invariant
            n == inner.subscribers.entries().len(),
            i <= n,
            out@.len() == i,
            forall|j: int|
                0 <= j < i ==> is_station_row(
                    #[trigger] out@[j],
                    inner@,
                    inner.subscribers.entries()[j].0,
                    inner.subscribers.entries()[j].1,
                ),
        decreases n - i,
    {
        let (issi, s) = inner.subscribers.entry(i);
        let basestation_addr = match inner.clients.get(&s.client_id) {
            Some(c) => copy_opt(&c.remote_addr),
            None => None,
        };
        out.push(
            StationRow {
                issi: *issi,
                mode: s.mode,
                basestation_id: s.client_id,
                basestation_addr,
                groups: member_list(&s.groups),
            },
        );
        i = i + 1;
    }
    out
}

/// Whether some client is connected under a user name.
pub open spec fn logged_in(w: World, username: Seq<char>) -> bool {
    exists|k: Id| #[trigger]
        w.clients.dom().contains(k) && w.clients[k].username == Some(username)
}

/// Whether a basestation with a configured location is connected, and from where.
pub fn station_link(inner: &Inner, username: &str) -> (r: Option<Option<String>>)
    ensures
        match r {
            Some(addr) => exists|k: Id| #[trigger]
                inner@.clients.dom().contains(k) && inner@.clients[k].username == Some(username@)
                    && inner@.clients[k].remote_addr == protocol::opt_text(addr),
            None => !logged_in(inner@, username@),
        },
{
    let n: usize = inner.clients.len();
    let ghost entries = inner.clients.entries();
    let mut i: usize = 0;
    while i < n
        invariant
            n == entries.len(),
            entries == inner.clients.entries(),
            i <= n,
            forall|j: int|
                0 <= j < i ==> (#[trigger] entries[j]).1.username != Some(username@),
            forall|j: int|
                0 <= j < n ==> inner@.clients.dom().contains((#[trigger] entries[j]).0)
                    && inner@.clients[entries[j].0] == entries[j].1,
        decreases n - i,
    {
        let (k, c) = inner.clients.entry(i);
        let same = match &c.username {
            Some(u) => same_text(u, username),
            None => false,
        };
        if same {
            assert(entries[i as int] == (k@, c@));
            assert(inner@.clients.dom().contains(*k));
            return Some(copy_opt(&c.remote_addr));
        }
        i = i + 1;
    }
    proof {
        if logged_in(inner@, username@) {
            let k = choose|k: Id| #[trigger]
                inner@.clients.dom().contains(k) && inner@.clients[k].username == Some(username@);
            let j = choose|j: int| 0 <= j < n && (#[trigger] entries[j]).0 == k;
            assert(entries[j].1.username == Some(username@));
        }
    }
    None
}

/// A basestation on the map.
#[derive(Debug)]
pub struct BtsLocation {
    pub username: String,
    pub name: String,
    pub place: Place,
    /// Where it is connected from.
    pub remote_addr: Option<String>,
    pub connected: bool,
}

/// What is shown of a basestation: its configured name and place, and whether a client
/// under its user name is connected, and from where.
pub open spec fn is_location_row(
    row: BtsLocation,
    w: World,
    username: Seq<char>,
    at: BtsLocationModel,
) -> bool {
    &&& row.username@ == username
    &&& row.name@ == at.name
    &&& row.place == at.place
    &&& row.connected == logged_in(w, username)
    &&& row.connected ==> exists|k: Id| #[trigger]
        w.clients.dom().contains(k) && w.clients[k].username == Some(username)
            && w.clients[k].remote_addr == protocol::opt_text(row.remote_addr)
    &&& !row.connected ==> row.remote_addr is None
}

/// The configured places; one that was never filled in does not count.
pub open spec fn placed(entries: Seq<(Seq<char>, BtsLocationModel)>) -> Seq<
    (Seq<char>, BtsLocationModel),
> {
    entries.filter(|e: (Seq<char>, BtsLocationModel)| !e.1.place.unset())
}

/// The basestations on the map.
pub fn bts_locations_snapshot(inner: &Inner, locations: &Table<String, BtsLocationConfig>) -> (r:
    Vec<BtsLocation>)
    ensures
        r@.len() == placed(locations.entries()).len(),
        forall|i: int|
            0 <= i < r@.len() ==> is_location_row(
                #[trigger] r@[i],
                inner@,
                placed(locations.entries())[i].0,
                placed(locations.entries())[i].1,
            ),
{
    let n: usize = locations.len();
    let ghost entries = locations.entries();
    let mut out: Vec<BtsLocation> = Vec::new();
    let mut i: usize = 0;
    proof {
        reveal(Seq::filter);
        assert(placed(entries.take(0)) =~= Seq::empty());
    }
    while i < n
        invariant
            n == entries.len(),
            entries == locations.entries(),
            i <= n,
            out@.len() == placed(entries.take(i as int)).len(),
            forall|j: int|
                0 <= j < out@.len() ==> is_location_row(
                    #[trigger] out@[j],
                    inner@,
                    placed(entries.take(i as int))[j].0,
                    placed(entries.take(i as int))[j].1,
                ),
        decreases n - i,
    {
        let (username, at) = locations.entry(i);
        proof {
            reveal(Seq::filter);
            let t = entries.take(i + 1);
            assert(t.drop_last() =~= entries.take(i as int));
            assert(t.last() == entries[i as int]);
        }
        if !at.place.is_unset() {
            let link = station_link(inner, username.as_str());
            let (connected, remote_addr) = match link {
                Some(a) => (true, a),
                None => (false, None),
            };
            let row = BtsLocation {
                username: username.clone(),
                name: at.name.clone(),
                place: at.place,
                remote_addr,
                connected,
            };
            assert(is_location_row(row, inner@, username@, at@));
            out.push(row);
        }
        i = i + 1;
    }
    assert(entries.take(i as int) =~= entries);
    out
}

/// Numbers of basestations, mobile stations and groups, as the main page shows them.
pub fn counts(inner: &Inner) -> (r: (usize, usize, usize))
    ensures
        r.0 == table::kept(
            inner@.clients,
            |c: ClientModel| c.mode == ClientMode::Basestation,
        ).dom().len(),
        r.1 == table::kept(
            inner@.subscribers,
            |s: SubscriberModel| s.mode == ClientMode::Terminal,
        ).dom().len(),
        r.2 == inner@.group_clients.len(),
{
    (inner.basestation_count(), inner.ms_registration_count(), inner.group_clients.len())
}

/// A SIP extension, without its password.
#[derive(Debug)]
pub struct ExtensionRow {
    pub user: String,
    pub display_name: String,
    pub issi: u32,
    pub allow_outbound: bool,
    pub has_password: bool,
}

/// What is shown of an extension.
pub open spec fn is_extension_row(row: ExtensionRow, user: Seq<char>, e: ExtensionModel) -> bool {
    &&& row.user@ == user
    &&& row.display_name@ == e.display_name
    &&& row.issi == e.issi
    &&& row.allow_outbound == e.allow_outbound
    &&& row.has_password == (e.password.len() > 0)
}

/// The SIP extensions.
pub fn extension_rows(t: &Table<String, SipExtensionConfig>) -> (r: Vec<ExtensionRow>)
    ensures
        r@.len() == t.entries().len(),
        forall|i: int|
            0 <= i < r@.len() ==> is_extension_row(
                #[trigger] r@[i],
                t.entries()[i].0,
                t.entries()[i].1,
            ),
{
    let n: usize = t.len();
    let mut out: Vec<ExtensionRow> = Vec::new();
    let mut i: usize = 0;
    while i < n
        invariant
            n == t.entries().len(),
            i <= n,
            out@.len() == i,
            forall|j: int|
                0 <= j < i ==> is_extension_row(
                    #[trigger] out@[j],
                    t.entries()[j].0,
                    t.entries()[j].1,
                ),
        decreases n - i,
    {
        let (user, e) = t.entry(i);
        let has_password = text::chars_of(&e.password).len() > 0;
        out.push(
            ExtensionRow {
                user: user.clone(),
                display_name: e.display_name.clone(),
                issi: e.issi,
                allow_outbound: e.allow_outbound,
                has_password,
            },
        );
        i = i + 1;
    }
    out
}

/// A SIP trunk, without its password.
#[derive(Debug)]
pub struct TrunkRow {
    pub name: String,
    pub direction: TrunkDirection,
    pub remote_host: String,
    /// The trunk's own name where none is configured.
    pub username: String,
    pub realm: String,
    pub register_interval_seconds: u64,
    pub enabled: bool,
    pub has_password: bool,
}

/// What is shown of a trunk.
pub open spec fn is_trunk_row(row: TrunkRow, name: Seq<char>, t: TrunkModel) -> bool {
    &&& row.name@ == name
    &&& row.direction == t.direction
    &&& row.remote_host@ == t.remote_host
    &&& row.username@ == (if t.username.len() == 0 {
        name
    } else {
        t.username
    })
    &&& row.realm@ == t.realm
    &&& row.register_interval_seconds == t.register_interval_seconds
    &&& row.enabled == t.enabled
    &&& row.has_password == (t.password.len() > 0)
}

/// The SIP trunks.
pub fn trunk_rows(t: &Table<String, SipTrunkConfig>) -> (r: Vec<TrunkRow>)
    ensures
        r@.len() == t.entries().len(),
        forall|i: int|
            0 <= i < r@.len() ==> is_trunk_row(
                #[trigger] r@[i],
                t.entries()[i].0,
                t.entries()[i].1,
            ),
{
    let n: usize = t.len();
    let mut out: Vec<TrunkRow> = Vec::new();
    let mut i: usize = 0;
    while i < n
        invariant
            n == t.entries().len(),
            i <= n,
            out@.len() == i,
            forall|j: int|
                0 <= j < i ==> is_trunk_row(
                    #[trigger] out@[j],
                    t.entries()[j].0,
                    t.entries()[j].1,
                ),
        decreases n - i,
    {
        let (name, e) = t.entry(i);
        let has_password = text::chars_of(&e.password).len() > 0;
        let username = if text::chars_of(&e.username).len() == 0 {
            name.clone()
        } else {
            e.username.clone()
        };
        out.push(
            TrunkRow {
                name: name.clone(),
                direction: e.direction,
                remote_host: e.remote_host.clone(),
                username,
                realm: e.realm.clone(),
                register_interval_seconds: e.register_interval_seconds,
                enabled: e.enabled,
                has_password,
            },
        );
        i = i + 1;
    }
    out
}

/// A voice route.
#[derive(Debug)]
pub struct RouteRow {
    pub name: String,
    pub match_pattern: String,
    pub strip_prefix: String,
    pub from: Option<String>,
    pub to: Option<String>,
    pub enabled: bool,
}

/// An optional endpoint in short.
pub open spec fn opt_endpoint_text(e: Option<EndpointModel>) -> Option<Seq<char>> {
    match e {
        Some(e) => Some(endpoint_text(e)),
        None => None,
    }
}

/// What is shown of a route.
pub open spec fn is_route_row(row: RouteRow, r: VoiceRouteConfig) -> bool {
    &&& row.name@ == r.name@
    &&& row.match_pattern@ == r.match_pattern@
    &&& row.strip_prefix@ == r.strip_prefix@
    &&& protocol::opt_text(row.from) == opt_endpoint_text(config::opt_endpoint(r.from))
    &&& protocol::opt_text(row.to) == opt_endpoint_text(config::opt_endpoint(r.to))
    &&& row.enabled == r.enabled
}

fn describe_opt(e: &Option<RouteEndpoint>) -> (r: Option<String>)
    ensures
        protocol::opt_text(r) == opt_endpoint_text(config::opt_endpoint(*e)),
{
    match e {
        Some(e) => Some(describe_endpoint(e)),
        None => None,
    }
}

/// The voice routes, in the order in which they are tried.
pub fn route_rows(routes: &[VoiceRouteConfig]) -> (r: Vec<RouteRow>)
    ensures
        r@.len() == routes@.len(),
        forall|i: int| 0 <= i < r@.len() ==> is_route_row(#[trigger] r@[i], routes@[i]),
{
    let mut out: Vec<RouteRow> = Vec::new();
    let mut i: usize = 0;
    while i < routes.len()
        invariant
            i <= routes@.len(),
            out@.len() == i,
            forall|j: int| 0 <= j < i ==> is_route_row(#[trigger] out@[j], routes@[j]),
        decreases routes@.len() - i,
    {
        let r = &routes[i];
        out.push(
            RouteRow {
                name: r.name.clone(),
                match_pattern: r.match_pattern.clone(),
                strip_prefix: r.strip_prefix.clone(),
                from: describe_opt(&r.from),
                to: describe_opt(&r.to),
                enabled: r.enabled,
            },
        );
        i = i + 1;
    }
    out
}

/// What is shown of an extension and of a trunk never depends on its password, but for
/// whether there is one.
pub proof fn passwords_are_not_shown(
    row: ExtensionRow,
    user: Seq<char>,
    e: ExtensionModel,
    f: ExtensionModel,
    line: TrunkRow,
    name: Seq<char>,
    t: TrunkModel,
    u: TrunkModel,
)
    requires
        is_extension_row(row, user, e),
        f == (ExtensionModel { password: f.password, ..e }),
        is_trunk_row(line, name, t),
        u == (TrunkModel { password: u.password, ..t }),
    ensures
        e.password.len() > 0 && f.password.len() > 0 ==> is_extension_row(row, user, f),
        row.has_password <==> e.password != Seq::<char>::empty(),
        row.user@ == user && row.display_name@ == e.display_name && row.issi == e.issi
            && row.allow_outbound == e.allow_outbound,
        t.password.len() > 0 && u.password.len() > 0 ==> is_trunk_row(line, name, u),
        line.has_password <==> t.password != Seq::<char>::empty(),
        line.name@ == name && line.direction == t.direction && line.remote_host@ == t.remote_host
            && line.enabled == t.enabled,
        t.username.len() == 0 ==> line.username@ == name,
        t.username.len() > 0 ==> line.username@ == t.username,
{
    if e.password.len() == 0 {
        assert(e.password =~= Seq::<char>::empty());
    }
    if t.password.len() == 0 {
        assert(t.password =~= Seq::<char>::empty());
    }
}

/// The row of a client counts the subscribers that are registered on it, and the row of a
/// subscriber names its client, with its address while that is connected, and its groups.
pub proof fn rows_tell_who_is_where(
    w: World,
    id: Id,
    c: ClientModel,
    row: StationRow,
    issi: u32,
    s: SubscriberModel,
    g: u32,
)
    requires
        is_station_row(row, w, issi, s),
    ensures
        client_row(w, id, c).id == id,
        client_row(w, id, c).mode == c.mode,
        client_row(w, id, c).remote_addr == c.remote_addr,
        client_row(w, id, c).version == (if c.version == protocol::ConnVersion::V1 {
            1u8
        } else {
            0
        }),
        client_row(w, id, c).registered_issis == w.subscribers.dom().filter(
            |i: u32| w.subscribers[i].client_id == id,
        ).len(),
        row.issi == issi && row.mode == s.mode && row.basestation_id == s.client_id,
        w.clients.dom().contains(s.client_id) ==> protocol::opt_text(row.basestation_addr)
            == w.clients[s.client_id].remote_addr,
        !w.clients.dom().contains(s.client_id) ==> row.basestation_addr is None,
        row.groups@.contains(g) <==> s.groups.contains(g),
{
    assert(table::kept(w.subscribers, |s: SubscriberModel| s.client_id == id).dom()
        =~= w.subscribers.dom().filter(|i: u32| w.subscribers[i].client_id == id));
    assert(row.groups@.to_set().contains(g) <==> s.groups.contains(g));
}

/// An endpoint is shown by its kind and its name or number.
pub proof fn endpoints_are_shown_by_kind(name: Seq<char>, number: Seq<char>, n: u32)
    ensures
        endpoint_text(EndpointModel::SipExtension { user: name }) == "ext:"@ + name,
        endpoint_text(EndpointModel::SipTrunk { trunk: name, number: Seq::empty() }) == "trunk:"@
            + name,
        number.len() > 0 ==> endpoint_text(EndpointModel::SipTrunk { trunk: name, number })
            == "trunk:"@ + name + "/"@ + number,
        endpoint_text(EndpointModel::BrewPrivate { issi: n }) == "issi:"@ + text::decimal(n as nat),
        endpoint_text(EndpointModel::BrewGroup { gssi: n }) == "group:"@ + text::decimal(n as nat),
{
}

/// A basestation with a configured place is shown as connected exactly while a client is
/// connected under its user name, then with the address of such a client. A place that was
/// never filled in is not shown.
pub proof fn placed_stations_are_shown(
    row: BtsLocation,
    w: World,
    username: Seq<char>,
    at: BtsLocationModel,
    entries: Seq<(Seq<char>, BtsLocationModel)>,
    e: (Seq<char>, BtsLocationModel),
)
    requires
        is_location_row(row, w, username, at),
    ensures
        row.username@ == username && row.name@ == at.name && row.place == at.place,
        row.connected <==> exists|k: Id|
            w.clients.dom().contains(k) && (#[trigger] w.clients[k]).username == Some(username),
        !row.connected ==> row.remote_addr is None,
        placed(entries).contains(e) <==> entries.contains(e) && !e.1.place.unset(),
{
    if row.connected {
        let k = choose|k: Id| #[trigger]
            w.clients.dom().contains(k) && w.clients[k].username == Some(username);
        assert(w.clients[k].username == Some(username));
    }
    let set = |e: (Seq<char>, BtsLocationModel)| !e.1.place.unset();
    let p = entries.filter(set);
    if p.contains(e) {
        let i = choose|i: int| 0 <= i < p.len() && p[i] == e;
        entries.lemma_filter_pred(set, i);
        entries.lemma_filter_contains_rev(set, e);
    }
    if entries.contains(e) && !e.1.place.unset() {
        let i = choose|i: int| 0 <= i < entries.len() && entries[i] == e;
        assert(set(entries[i]));
        entries.lemma_filter_contains(set, i);
    }
}

} // verus!

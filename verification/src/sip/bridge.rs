//! The bridge between SIP calls and Brew calls. A bridged call has a virtual
//! client that takes part in the Brew call like any other, so that the router
//! delivers voice frames to it.
use crate::config;
use crate::config::{RouteModel, SipTrunkConfig, TrunkModel, VoiceRouteConfig};
use crate::ids;
use crate::ids::{id_text, Id};
use crate::protocol;
use crate::protocol::{
    build_call_cause, build_call_control_empty, build_circular_call_setup,
    build_circular_connect_request, build_group_tx, parse, BrewMessage, ConnVersion, MessageModel,
    CALL_CONNECT_CONFIRM, CALL_CONNECT_REQUEST, CALL_GROUP_IDLE, CALL_RELEASE, CALL_SETUP_REQUEST,
};
use crate::router;
use crate::router::{connected, Batch, BatchModel, Routed, RoutedModel, RoutingPolicy, Step};
use crate::sip::message;
use crate::sip::message::{extract_uri, Method, MethodModel, SipMessage, SipModel, StartModel};
use crate::sip::routing;
use crate::sip::routing::{resolve, CallOrigin, LegEndpoint, LegModel, OriginModel};
use crate::state;
use crate::state::{
    ActiveCall, CallKind, CallModel, Client, ClientMode, ClientModel, Inner, World,
};
use crate::table::{KeySet, Table};
use crate::text;
use crate::text::{chars_of, find_char_from, push_text, string_of};
use vstd::prelude::*;
use vstd::slice::slice_subrange;

verus! {

/// The Brew call that a call toward SIP is placed for.
#[derive(Debug, Clone, Copy)]
pub struct BrewCallLink {
    pub call_id: Id,
    pub client: Id,
    pub issi: u32,
}

/// What is needed to end a SIP dialog when the Brew side hangs up first.
#[derive(Debug)]
pub struct DialogBye {
    pub request_uri: String,
    pub target_addr: String,
    pub from: String,
    pub to: String,
}

pub struct ByeModel {
    pub request_uri: Seq<char>,
    pub target_addr: Seq<char>,
    pub from: Seq<char>,
    pub to: Seq<char>,
}

impl View for DialogBye {
    type V = ByeModel;

    open spec fn view(&self) -> ByeModel {
        ByeModel {
            request_uri: self.request_uri@,
            target_addr: self.target_addr@,
            from: self.from@,
            to: self.to@,
        }
    }
}

impl Clone for DialogBye {
    fn clone(&self) -> (r: Self)
        ensures
            r@ == self@,
    {
        DialogBye {
            request_uri: self.request_uri.clone(),
            target_addr: self.target_addr.clone(),
            from: self.from.clone(),
            to: self.to.clone(),
        }
    }
}

/// The Brew side of a bridged call.
#[derive(Debug)]
pub struct BridgedLeg {
    pub virtual_client: Id,
    pub brew_call_id: Id,
    pub group: Option<u32>,
    pub bye: Option<DialogBye>,
}

pub struct LegRecord {
    pub virtual_client: Id,
    pub brew_call_id: Id,
    pub group: Option<u32>,
    pub bye: Option<ByeModel>,
}

/// An optional dialog by its model.
pub open spec fn opt_bye(o: Option<DialogBye>) -> Option<ByeModel> {
    match o {
        Some(b) => Some(b@),
        None => None,
    }
}

impl View for BridgedLeg {
    type V = LegRecord;

    open spec fn view(&self) -> LegRecord {
        LegRecord {
            virtual_client: self.virtual_client,
            brew_call_id: self.brew_call_id,
            group: self.group,
            bye: opt_bye(self.bye),
        }
    }
}

/// The bridged calls, by SIP Call-ID.
#[derive(Debug)]
pub struct BrewBridge {
    pub legs: Table<String, BridgedLeg>,
}

/// A virtual client, as the server knows it.
pub open spec fn virtual_model(now_ms: u64) -> ClientModel {
    ClientModel {
        mode: ClientMode::Terminal,
        version: ConnVersion::V1,
        remote_addr: None,
        connected_at_ms: now_ms,
        username: None,
    }
}

fn virtual_record(now_ms: u64) -> (r: Client)
    ensures
        r@ == virtual_model(now_ms),
{
    Client {
        mode: ClientMode::Terminal,
        version: ConnVersion::V1,
        remote_addr: None,
        connected_at_ms: now_ms,
        username: None,
    }
}

/// The first G.711 payload type among some, PCMU if there is none.
pub open spec fn first_g711(payloads: Seq<u8>) -> u8
    decreases payloads.len(),
{
    if payloads.len() == 0 {
        0
    } else if payloads[0] == 0 || payloads[0] == 8 {
        payloads[0]
    } else {
        first_g711(payloads.drop_first())
    }
}

/// Payload type that the transcoder runs at.
pub fn transcoder_payload_type(payloads: &[u8]) -> (r: u8)
    ensures
        r == first_g711(payloads@),
{
    let mut i: usize = 0;
    assert(payloads@.subrange(0, payloads@.len() as int) =~= payloads@);
    while i < payloads.len()
        invariant
            i <= payloads@.len(),
            first_g711(payloads@) == first_g711(
                payloads@.subrange(i as int, payloads@.len() as int),
            ),
        decreases payloads@.len() - i,
    {
        if payloads[i] == 0 || payloads[i] == 8 {
            return payloads[i];
        }
        assert(payloads@.subrange(i as int, payloads@.len() as int).drop_first()
            =~= payloads@.subrange(i + 1, payloads@.len() as int));
        i += 1;
    }
    0
}

/// A final response that refuses a call.
#[derive(Debug)]
pub struct Refusal {
    pub code: u16,
    pub reason: &'static str,
}

/// Whether a SIP call can be bridged to a subscriber: the client that it is
/// registered on, or a refusal.
pub fn admit_private(inner: &Inner, issi: u32) -> (r: Result<Id, Refusal>)
    ensures
        match r {
            Ok(target) => inner@.subscribers.dom().contains(issi) && target
                == inner@.subscribers[issi].client_id,
            Err(e) => !inner@.subscribers.dom().contains(issi) && e.code == 480 && e.reason@
                == "Temporarily Unavailable"@,
        },
{
    match inner.subscribers.get(&issi) {
        Some(s) => Ok(s.client_id),
        None => Err(Refusal { code: 480, reason: "Temporarily Unavailable" }),
    }
}

/// Whether a group has no affiliated client.
pub open spec fn unaffiliated(w: World, gssi: u32) -> bool {
    !w.group_clients.dom().contains(gssi) || w.group_clients[gssi] == Set::<Id>::empty()
}

/// Whether a SIP call can be bridged to a group: somebody is affiliated, or
/// calls to empty groups are broadcast.
pub fn admit_group(inner: &Inner, policy: &RoutingPolicy, gssi: u32) -> (r: Option<Refusal>)
    ensures
        match r {
            None => !unaffiliated(inner@, gssi) || policy.fallback_broadcast_when_no_affiliations,
            Some(e) => unaffiliated(inner@, gssi)
                && !policy.fallback_broadcast_when_no_affiliations && e.code == 480 && e.reason@
                == "Temporarily Unavailable"@,
        },
{
    let empty = match inner.group_clients.get(&gssi) {
        Some(s) => s.is_empty(),
        None => true,
    };
    if empty && !policy.fallback_broadcast_when_no_affiliations {
        Some(Refusal { code: 480, reason: "Temporarily Unavailable" })
    } else {
        None
    }
}

/// The refusal of a call for which no port for media is free.
fn no_media_port() -> (r: Refusal)
    ensures
        r.code == 500,
        r.reason@ == "Server Internal Error"@,
{
    Refusal { code: 500, reason: "Server Internal Error" }
}

/// A SIP call that comes in: the request, the response to it before it carries an answer,
/// where the request came from, and the Call-ID.
#[derive(Debug)]
pub struct Incoming {
    pub request: SipMessage,
    pub base: SipMessage,
    pub caller: String,
    pub call_id: String,
}

/// What is fresh in a bridged call: identifiers for the call and its virtual client, and
/// when it starts, as milliseconds since 1970 and as a monotonic reading in nanoseconds.
#[derive(Debug, Clone, Copy)]
pub struct Fresh {
    pub call: Id,
    pub virtual_client: Id,
    pub now_ms: u64,
    pub now: u64,
}

/// A SIP call bridged to a subscriber: a virtual client calls the client that
/// the subscriber is registered on, which is rung.
pub open spec fn private_bridge_step(
    w: World,
    target: Id,
    issi: u32,
    call: Id,
    virtual_client: Id,
    now_ms: u64,
    now: u64,
) -> Step {
    let peers = Set::<Id>::empty().insert(target);
    let w2 = World {
        clients: w.clients.insert(virtual_client, virtual_model(now_ms)),
        calls: w.calls.insert(
            call,
            CallModel {
                kind: CallKind::Private,
                owner: virtual_client,
                source_issi: 0,
                destination: issi,
                priority: 0,
                peers,
                started_at: now,
            },
        ),
        ..w
    };
    Step {
        world: w2,
        out: RoutedModel {
            sent: seq![
                router::to_connected(w2, peers, protocol::circular_call_packet(CALL_SETUP_REQUEST, call, 0, issi, 0)),
            ],
            events: Seq::empty(),
        },
    }
}

fn one_batch(to: KeySet<Id>, packet: Vec<u8>) -> (r: Routed)
    ensures
        r@ == (RoutedModel {
            sent: seq![BatchModel { to: to@, packet: packet@ }],
            events: Seq::empty(),
        }),
{
    let mut sent: Vec<Batch> = Vec::new();
    sent.push(Batch { to, packet });
    let r = Routed { sent, events: Vec::new() };
    assert(r@.sent =~= seq![BatchModel { to: to@, packet: packet@ }]);
    assert(r@.events =~= Seq::<crate::router::EventModel>::empty());
    r
}

fn no_batch() -> (r: Routed)
    ensures
        r@ == router::silent(),
{
    let r = Routed { sent: Vec::new(), events: Vec::new() };
    assert(r@.sent =~= router::silent().sent);
    assert(r@.events =~= router::silent().events);
    r
}

/// Sets up the Brew side of a SIP call to a subscriber. The identifiers are
/// fresh ones for the call and its virtual client; `now` is a monotonic clock reading in
/// nanoseconds.
pub fn ring_subscriber(
    inner: &mut Inner,
    target: Id,
    issi: u32,
    call: Id,
    virtual_client: Id,
    now_ms: u64,
    now: u64,
) -> (r: Routed)
    ensures
        (Step { world: final(inner)@, out: r@ }) == private_bridge_step(
            old(inner)@,
            target,
            issi,
            call,
            virtual_client,
            now_ms,
            now,
        ),
{
    inner.clients.insert(virtual_client, virtual_record(now_ms));
    let mut peers: KeySet<Id> = KeySet::new();
    peers.insert(target);
    let live = connected(inner, &peers);
    inner.calls.insert(
        call,
        ActiveCall {
            kind: CallKind::Private,
            owner: virtual_client,
            source_issi: 0,
            destination: issi,
            priority: 0,
            peers,
            started_at: now,
        },
    );
    one_batch(live, build_circular_call_setup(&call, 0, issi, 0))
}

/// A SIP call bridged to a group: a virtual client joins the group, takes the
/// floor and transmits to the members that were there.
pub open spec fn group_bridge_step(
    w: World,
    gssi: u32,
    call: Id,
    virtual_client: Id,
    now_ms: u64,
    now: u64,
) -> Step {
    let groups = router::joined(w.group_clients, virtual_client, Set::<u32>::empty().insert(gssi));
    let targets = groups[gssi].remove(virtual_client);
    let w2 = World {
        clients: w.clients.insert(virtual_client, virtual_model(now_ms)),
        group_clients: groups,
        calls: w.calls.insert(
            call,
            CallModel {
                kind: CallKind::Group,
                owner: virtual_client,
                source_issi: 0,
                destination: gssi,
                priority: 0,
                peers: targets,
                started_at: now,
            },
        ),
        group_floor: w.group_floor.insert(gssi, call),
        ..w
    };
    Step {
        world: w2,
        out: RoutedModel {
            sent: seq![router::to_connected(w2, targets, protocol::group_tx_packet(call, 0, gssi, 0))],
            events: Seq::empty(),
        },
    }
}

/// Sets up the Brew side of a SIP call to a group.
pub fn seize_group(
    inner: &mut Inner,
    gssi: u32,
    call: Id,
    virtual_client: Id,
    now_ms: u64,
    now: u64,
) -> (r: Routed)
    ensures
        (Step { world: final(inner)@, out: r@ }) == group_bridge_step(
            old(inner)@,
            gssi,
            call,
            virtual_client,
            now_ms,
            now,
        ),
{
    let ghost w = inner@;
    let ghost groups = router::joined(w.group_clients, virtual_client, Set::<u32>::empty().insert(gssi));
    inner.clients.insert(virtual_client, virtual_record(now_ms));
    let mut members = match inner.group_clients.remove(&gssi) {
        Some(s) => s,
        None => KeySet::new(),
    };
    members.insert(virtual_client);
    let mut targets = members.duplicate();
    targets.remove(&virtual_client);
    inner.group_clients.insert(gssi, members);
    assert(inner@.group_clients =~= groups);
    let live = connected(inner, &targets);
    inner.calls.insert(
        call,
        ActiveCall {
            kind: CallKind::Group,
            owner: virtual_client,
            source_issi: 0,
            destination: gssi,
            priority: 0,
            peers: targets,
            started_at: now,
        },
    );
    inner.group_floor.insert(gssi, call);
    one_batch(live, build_group_tx(&call, 0, gssi, 0))
}

/// A Brew call placed toward SIP: a virtual client takes part in it as the
/// called party.
pub open spec fn outbound_world(
    w: World,
    link: BrewCallLink,
    virtual_client: Id,
    now_ms: u64,
    now: u64,
) -> World {
    World {
        clients: w.clients.insert(virtual_client, virtual_model(now_ms)),
        calls: w.calls.insert(
            link.call_id,
            CallModel {
                kind: CallKind::Private,
                owner: link.client,
                source_issi: 0,
                destination: 0,
                priority: 0,
                peers: Set::<Id>::empty().insert(virtual_client),
                started_at: now,
            },
        ),
        ..w
    }
}

/// Sets up the Brew side of a call toward SIP.
pub fn join_call(
    inner: &mut Inner,
    link: BrewCallLink,
    virtual_client: Id,
    now_ms: u64,
    now: u64,
)
    ensures
        final(inner)@ == outbound_world(old(inner)@, link, virtual_client, now_ms, now),
{
    inner.clients.insert(virtual_client, virtual_record(now_ms));
    let mut peers: KeySet<Id> = KeySet::new();
    peers.insert(virtual_client);
    inner.calls.insert(
        link.call_id,
        ActiveCall {
            kind: CallKind::Private,
            owner: link.client,
            source_issi: 0,
            destination: 0,
            priority: 0,
            peers,
            started_at: now,
        },
    );
}

/// What call control that reaches a virtual client is answered. In a call that the
/// virtual client placed, the called terminal asks to be connected once it is answered,
/// and that is confirmed.
pub open spec fn confirm_out(w: World, virtual_client: Id, raw: Seq<u8>) -> RoutedModel {
    match protocol::parsed(raw, ConnVersion::V1) {
        Ok((MessageModel::CallControl { call_state, identifier, .. }, _)) => if call_state
            == CALL_CONNECT_REQUEST && w.calls.dom().contains(identifier)
            && w.calls[identifier].owner == virtual_client {
            RoutedModel {
                sent: seq![
                    router::to_connected(
                        w,
                        w.calls[identifier].peers,
                        protocol::call_head(CALL_CONNECT_CONFIRM, identifier),
                    ),
                ],
                events: Seq::empty(),
            }
        } else {
            router::silent()
        },
        _ => router::silent(),
    }
}

/// Answers call control that reaches a virtual client.
pub fn confirm_answer(inner: &Inner, virtual_client: Id, raw: &[u8]) -> (r: Routed)
    ensures
        r@ == confirm_out(inner@, virtual_client, raw@),
{
    match parse(raw) {
        Ok(BrewMessage::CallControl(cc)) => {
            if cc.call_state == CALL_CONNECT_REQUEST {
                match inner.calls.get(&cc.identifier) {
                    Some(c) => {
                        if c.owner == virtual_client {
                            return one_batch(
                                connected(inner, &c.peers),
                                build_call_control_empty(CALL_CONNECT_CONFIRM, &cc.identifier),
                            );
                        }
                    },
                    None => {},
                }
            }
        },
        _ => {},
    }
    no_batch()
}

/// What tells the calling terminal that the SIP side has answered.
pub open spec fn answered_out(w: World, call: Id) -> RoutedModel {
    if w.calls.dom().contains(call) {
        let c = w.calls[call];
        RoutedModel {
            sent: seq![
                router::to_connected(
                    w,
                    Set::<Id>::empty().insert(c.owner),
                    protocol::circular_call_packet(
                        CALL_CONNECT_REQUEST,
                        call,
                        c.source_issi,
                        c.destination,
                        c.priority,
                    ),
                ),
            ],
            events: Seq::empty(),
        }
    } else {
        router::silent()
    }
}

/// Tells the calling terminal that the SIP side has answered.
pub fn outbound_answered(inner: &Inner, call: Id) -> (r: Routed)
    ensures
        r@ == answered_out(inner@, call),
{
    match inner.calls.get(&call) {
        Some(c) => {
            let mut to: KeySet<Id> = KeySet::new();
            to.insert(c.owner);
            let live = connected(inner, &to);
            one_batch(
                live,
                build_circular_connect_request(&call, c.source_issi, c.destination, c.priority),
            )
        },
        None => no_batch(),
    }
}

/// The end of a bridged call: its virtual client is gone from every place, the
/// call and a floor that it held are gone, and the other participants are told
/// if the call was still there.
pub open spec fn teardown_step(w: World, leg: LegRecord) -> Step {
    let v = leg.virtual_client;
    let w2 = World {
        clients: w.clients.remove(v),
        calls: w.calls.remove(leg.brew_call_id),
        group_clients: match leg.group {
            Some(g) => if w.group_clients.dom().contains(g) {
                w.group_clients.insert(g, w.group_clients[g].remove(v))
            } else {
                w.group_clients
            },
            None => w.group_clients,
        },
        group_floor: match leg.group {
            Some(g) => if w.group_floor.dom().contains(g) && w.group_floor[g] == leg.brew_call_id {
                w.group_floor.remove(g)
            } else {
                w.group_floor
            },
            None => w.group_floor,
        },
        ..w
    };
    let out = if w.calls.dom().contains(leg.brew_call_id) {
        let c = w.calls[leg.brew_call_id];
        RoutedModel {
            sent: seq![
                router::to_connected(
                    w2,
                    c.peers.insert(c.owner).remove(v),
                    protocol::call_cause_packet(
                        if c.kind == CallKind::Group {
                            CALL_GROUP_IDLE
                        } else {
                            CALL_RELEASE
                        },
                        leg.brew_call_id,
                        0,
                    ),
                ),
            ],
            events: Seq::empty(),
        }
    } else {
        router::silent()
    };
    Step { world: w2, out }
}

/// Takes a bridged call out of the server's state.
pub fn remove_leg(inner: &mut Inner, leg: &BridgedLeg) -> (r: Routed)
    ensures
        (Step { world: final(inner)@, out: r@ }) == teardown_step(old(inner)@, leg@),
{
    let ghost w = inner@;
    let v: Id = leg.virtual_client;
    let id: Id = leg.brew_call_id;
    inner.clients.remove(&v);
    let call = inner.calls.remove(&id);
    match leg.group {
        Some(g) => {
            match inner.group_clients.remove(&g) {
                Some(s) => {
                    let mut s = s;
                    s.remove(&v);
                    inner.group_clients.insert(g, s);
                    assert(inner@.group_clients =~= w.group_clients.insert(
                        g,
                        w.group_clients[g].remove(v),
                    ));
                },
                None => {
                    assert(inner@.group_clients =~= w.group_clients);
                },
            }
            let holds = match inner.group_floor.get(&g) {
                Some(h) => *h == id,
                None => false,
            };
            if holds {
                inner.group_floor.remove(&g);
            }
        },
        None => {},
    }
    match call {
        Some(c) => {
            let mut targets = c.peers.duplicate();
            targets.insert(c.owner);
            targets.remove(&v);
            let live = connected(inner, &targets);
            let state: u8 = if c.kind == CallKind::Group {
                CALL_GROUP_IDLE
            } else {
                CALL_RELEASE
            };
            one_batch(live, build_call_cause(state, &id, 0))
        },
        None => no_batch(),
    }
}

/// Whether the Brew call of a bridged call lasts longer than allowed.
pub open spec fn leg_is_overdue(w: World, leg: LegRecord, now: u64, max_seconds: u64) -> bool {
    w.calls.dom().contains(leg.brew_call_id) && state::overdue(
        w.calls[leg.brew_call_id],
        now,
        max_seconds,
    )
}

/// A leg that belongs to a Brew call.
pub open spec fn leg_of_call(legs: Map<Seq<char>, LegRecord>, call: Id) -> bool {
    exists|k: Seq<char>| #[trigger] legs.dom().contains(k) && legs[k].brew_call_id == call
}

/// A request that ends a SIP dialog, and where it goes.
#[derive(Debug)]
pub struct Farewell {
    pub request: SipMessage,
    pub target_addr: String,
}

/// Whether a farewell is the one that a dialog asks for; without a dialog there is none.
pub open spec fn takes_leave(
    f: Option<Farewell>,
    call_id: Seq<char>,
    bye: Option<ByeModel>,
    host: Seq<char>,
    branch: Id,
) -> bool {
    match (f, bye) {
        (Some(f), Some(d)) => f.request@ == bye_model(call_id, d, host, branch) && f.target_addr@
            == d.target_addr,
        (None, None) => true,
        _ => false,
    }
}

impl BrewBridge {
    /// A bridge without calls.
    pub fn new() -> (r: Self)
        ensures
            r.legs@ == Map::<Seq<char>, LegRecord>::empty(),
    {
        BrewBridge { legs: Table::new() }
    }

    /// Files a bridged call under its SIP Call-ID, in the place of any other.
    pub fn file_leg(&mut self, call_id: &str, leg: BridgedLeg)
        ensures
            final(self).legs@ == old(self).legs@.insert(call_id@, leg@),
    {
        self.legs.insert(call_id.to_owned(), leg);
    }

    /// Bridges a SIP call to a subscriber. `media` is the answer to the media offer, if a
    /// port for media was free. The call is refused when the subscriber is not registered,
    /// or else when there is no port; otherwise it is accepted, set up on the Brew side and
    /// filed under its Call-ID.
    pub fn sip_to_brew_private(
        &mut self,
        inner: &mut Inner,
        incoming: Incoming,
        host: &str,
        media: Option<Vec<u8>>,
        issi: u32,
        fresh: Fresh,
    ) -> (r: Result<(SipMessage, Routed), Refusal>)
        ensures
            match r {
                Ok((ok, told)) => {
                    &&& old(inner)@.subscribers.dom().contains(issi)
                    &&& media is Some
                    &&& ok@ == answer_model(incoming.base@, host@, media->0@)
                    &&& (Step { world: final(inner)@, out: told@ }) == private_bridge_step(
                        old(inner)@,
                        old(inner)@.subscribers[issi].client_id,
                        issi,
                        fresh.call,
                        fresh.virtual_client,
                        fresh.now_ms,
                        fresh.now,
                    )
                    &&& final(self).legs@ == old(self).legs@.insert(
                        incoming.call_id@,
                        LegRecord {
                            virtual_client: fresh.virtual_client,
                            brew_call_id: fresh.call,
                            group: None,
                            bye: dialog_of(ok@, incoming.request@, incoming.caller@),
                        },
                    )
                },
                Err(e) => {
                    &&& if old(inner)@.subscribers.dom().contains(issi) {
                        media is None && e.code == 500 && e.reason@ == "Server Internal Error"@
                    } else {
                        e.code == 480 && e.reason@ == "Temporarily Unavailable"@
                    }
                    &&& final(inner)@ == old(inner)@
                    &&& final(self).legs@ == old(self).legs@
                },
            },
    {
        let target = match admit_private(inner, issi) {
            Ok(t) => t,
            Err(e) => {
                return Err(e);
            },
        };
        let sdp = match media {
            Some(sdp) => sdp,
            None => {
                return Err(no_media_port());
            },
        };
        let Incoming { request, base, caller, call_id } = incoming;
        let told = ring_subscriber(
            inner,
            target,
            issi,
            fresh.call,
            fresh.virtual_client,
            fresh.now_ms,
            fresh.now,
        );
        let ok = accept_call(base, host, sdp);
        let bye = dialog_bye(&ok, &request, caller.as_str());
        let leg = BridgedLeg {
            virtual_client: fresh.virtual_client,
            brew_call_id: fresh.call,
            group: None,
            bye,
        };
        self.file_leg(call_id.as_str(), leg);
        Ok((ok, told))
    }

    /// Bridges a SIP call to a group. `media` is the answer to the media offer, if a port
    /// for media was free. The call is refused when nobody is there and such calls are not
    /// broadcast, or else when there is no port; otherwise it is accepted, set up on the
    /// Brew side and filed under its Call-ID.
    pub fn sip_to_brew_group(
        &mut self,
        inner: &mut Inner,
        incoming: Incoming,
        host: &str,
        media: Option<Vec<u8>>,
        policy: &RoutingPolicy,
        gssi: u32,
        fresh: Fresh,
    ) -> (r: Result<(SipMessage, Routed), Refusal>)
        ensures
            ({
                let admitted = !unaffiliated(old(inner)@, gssi)
                    || policy.fallback_broadcast_when_no_affiliations;
                match r {
                    Ok((ok, told)) => {
                        &&& admitted
                        &&& media is Some
                        &&& ok@ == answer_model(incoming.base@, host@, media->0@)
                        &&& (Step { world: final(inner)@, out: told@ }) == group_bridge_step(
                            old(inner)@,
                            gssi,
                            fresh.call,
                            fresh.virtual_client,
                            fresh.now_ms,
                            fresh.now,
                        )
                        &&& final(self).legs@ == old(self).legs@.insert(
                            incoming.call_id@,
                            LegRecord {
                                virtual_client: fresh.virtual_client,
                                brew_call_id: fresh.call,
                                group: Some(gssi),
                                bye: dialog_of(ok@, incoming.request@, incoming.caller@),
                            },
                        )
                    },
                    Err(e) => {
                        &&& if admitted {
                            media is None && e.code == 500 && e.reason@ == "Server Internal Error"@
                        } else {
                            e.code == 480 && e.reason@ == "Temporarily Unavailable"@
                        }
                        &&& final(inner)@ == old(inner)@
                        &&& final(self).legs@ == old(self).legs@
                    },
                }
            }),
    {
        match admit_group(inner, policy, gssi) {
            Some(e) => {
                return Err(e);
            },
            None => {},
        }
        let sdp = match media {
            Some(sdp) => sdp,
            None => {
                return Err(no_media_port());
            },
        };
        let Incoming { request, base, caller, call_id } = incoming;
        let told = seize_group(
            inner,
            gssi,
            fresh.call,
            fresh.virtual_client,
            fresh.now_ms,
            fresh.now,
        );
        let ok = accept_call(base, host, sdp);
        let bye = dialog_bye(&ok, &request, caller.as_str());
        let leg = BridgedLeg {
            virtual_client: fresh.virtual_client,
            brew_call_id: fresh.call,
            group: Some(gssi),
            bye,
        };
        self.file_leg(call_id.as_str(), leg);
        Ok((ok, told))
    }

    /// Places a Brew call toward SIP: sets up its Brew side, files it under its Call-ID and
    /// gives the INVITE to send. `media` is the media offer, if a port for media was free;
    /// without one nothing happens. `tag` and `branch` are fresh.
    pub fn place_outbound(
        &mut self,
        inner: &mut Inner,
        link: BrewCallLink,
        destination: &Destination,
        call_id: &str,
        host: &str,
        tag: Id,
        branch: Id,
        media: Option<Vec<u8>>,
        virtual_client: Id,
        now_ms: u64,
        now: u64,
    ) -> (r: Option<SipMessage>)
        ensures
            match r {
                Some(invite) => {
                    &&& media is Some
                    &&& invite@ == invite_model(
                        call_id@,
                        link.issi,
                        destination.uri@,
                        host@,
                        tag,
                        branch,
                        media->0@,
                    )
                    &&& final(inner)@ == outbound_world(
                        old(inner)@,
                        link,
                        virtual_client,
                        now_ms,
                        now,
                    )
                    &&& final(self).legs@ == old(self).legs@.insert(
                        call_id@,
                        LegRecord {
                            virtual_client,
                            brew_call_id: link.call_id,
                            group: None,
                            bye: Some(
                                ByeModel {
                                    request_uri: destination.uri@,
                                    target_addr: destination.addr@,
                                    from: invite_from(link.issi, host@, tag),
                                    to: invite_to(destination.uri@),
                                },
                            ),
                        },
                    )
                },
                None => {
                    &&& media is None
                    &&& final(inner)@ == old(inner)@
                    &&& final(self).legs@ == old(self).legs@
                },
            },
    {
        let sdp = match media {
            Some(sdp) => sdp,
            None => {
                return None;
            },
        };
        join_call(inner, link, virtual_client, now_ms, now);
        let (invite, bye) = outbound_invite(
            call_id,
            link.issi,
            destination.uri.as_str(),
            destination.addr.as_str(),
            host,
            tag,
            branch,
            sdp,
        );
        let leg = BridgedLeg {
            virtual_client,
            brew_call_id: link.call_id,
            group: None,
            bye: Some(bye),
        };
        self.file_leg(call_id, leg);
        Some(invite)
    }

    /// The Call-IDs of the bridged calls whose Brew call lasts longer than allowed; without
    /// a limit there are none.
    pub fn overdue_legs(&self, inner: &Inner, now: u64, max_seconds: u64) -> (r: KeySet<String>)
        ensures
            forall|k: Seq<char>| #[trigger]
                r@.contains(k) <==> self.legs@.dom().contains(k) && leg_is_overdue(
                    inner@,
                    self.legs@[k],
                    now,
                    max_seconds,
                ),
    {
        let n: usize = self.legs.len();
        let ghost entries = self.legs.entries();
        let mut out: KeySet<String> = KeySet::new();
        let mut i: usize = 0;
        while i < n
            invariant
                i <= n,
                n == entries.len(),
                entries == self.legs.entries(),
                forall|j: int|
                    0 <= j < n ==> self.legs@.dom().contains((#[trigger] entries[j]).0)
                        && self.legs@[entries[j].0] == entries[j].1,
                forall|k: Seq<char>| #[trigger]
                    out@.contains(k) <==> exists|j: int|
                        0 <= j < i && (#[trigger] entries[j]).0 == k && leg_is_overdue(
                            inner@,
                            entries[j].1,
                            now,
                            max_seconds,
                        ),
            decreases n - i,
        {
            let (k, leg) = self.legs.entry(i);
            let late = match inner.calls.get(&leg.brew_call_id) {
                Some(c) => c.lasts_too_long(now, max_seconds),
                None => false,
            };
            let ghost before = out@;
            if late {
                out.insert(k.clone());
            }
            proof {
                assert(entries[i as int] == (k@, leg@));
                assert forall|q: Seq<char>| #[trigger]
                    out@.contains(q) <==> exists|j: int|
                    0 <= j < i + 1 && (#[trigger] entries[j]).0 == q && leg_is_overdue(
                        inner@,
                        entries[j].1,
                        now,
                        max_seconds,
                    ) by {
                    if before.contains(q) {
                        let j = choose|j: int|
                            0 <= j < i && (#[trigger] entries[j]).0 == q && leg_is_overdue(
                                inner@,
                                entries[j].1,
                                now,
                                max_seconds,
                            );
                        assert(0 <= j < i + 1 && entries[j].0 == q);
                    }
                    if late && q == k@ {
                        assert(entries[i as int].0 == q);
                    }
                }
            }
            i += 1;
        }
        proof {
            assert forall|k: Seq<char>| #[trigger] self.legs@.dom().contains(k) implies exists|j: int|
                0 <= j < n && (#[trigger] entries[j]).0 == k && entries[j].1 == self.legs@[k] by {
                let j = choose|j: int| 0 <= j < n && (#[trigger] entries[j]).0 == k;
                assert(entries[j].1 == self.legs@[k]);
            }
        }
        out
    }

    /// Ends a bridged call; nothing happens for a call that is not bridged.
    pub fn teardown(&mut self, inner: &mut Inner, call_id: &str) -> (r: Routed)
        ensures
            final(self).legs@ == old(self).legs@.remove(call_id@),
            old(self).legs@.dom().contains(call_id@) ==> (Step {
                world: final(inner)@,
                out: r@,
            }) == teardown_step(old(inner)@, old(self).legs@[call_id@]),
            !old(self).legs@.dom().contains(call_id@) ==> final(inner)@ == old(inner)@ && r@
                == router::silent(),
    {
        let key = call_id.to_owned();
        match self.legs.remove(&key) {
            Some(leg) => remove_leg(inner, &leg),
            None => no_batch(),
        }
    }

    /// SIP Call-ID and dialog of the bridged call that belongs to a Brew call.
    pub fn find_by_brew_call(&self, call: Id) -> (r: Option<(String, Option<DialogBye>)>)
        ensures
            match r {
                Some((call_id, bye)) => self.legs@.dom().contains(call_id@)
                    && self.legs@[call_id@].brew_call_id == call && opt_bye(bye)
                    == self.legs@[call_id@].bye,
                None => !leg_of_call(self.legs@, call),
            },
    {
        let n: usize = self.legs.len();
        let mut i: usize = 0;
        while i < n
            invariant
                i <= n,
                n == self.legs.entries().len(),
                forall|j: int|
                    0 <= j < i ==> (#[trigger] self.legs.entries()[j]).1.brew_call_id != call,
            decreases n - i,
        {
            let (k, leg) = self.legs.entry(i);
            if leg.brew_call_id == call {
                let bye = match &leg.bye {
                    Some(b) => Some(b.clone()),
                    None => None,
                };
                return Some((k.clone(), bye));
            }
            i += 1;
        }
        proof {
            if leg_of_call(self.legs@, call) {
                let k = choose|k: Seq<char>| #[trigger]
                    self.legs@.dom().contains(k) && self.legs@[k].brew_call_id == call;
                let j = choose|j: int|
                    0 <= j < n && (#[trigger] self.legs.entries()[j]).0 == k;
                assert(self.legs.entries()[j].1 == self.legs@[k]);
            }
        }
        None
    }

    /// Ends the bridged call that belongs to a Brew call which the Brew side has ended:
    /// the SIP side is told with the request that comes back, if there is a dialog.
    /// Nothing happens for a call that is not bridged.
    pub fn teardown_by_brew_call(
        &mut self,
        inner: &mut Inner,
        call: Id,
        host: &str,
        branch: Id,
    ) -> (r: (Option<Farewell>, Routed))
        ensures
            leg_of_call(old(self).legs@, call) ==> exists|k: Seq<char>| #[trigger]
                old(self).legs@.dom().contains(k) && old(self).legs@[k].brew_call_id == call
                    && final(self).legs@ == old(self).legs@.remove(k) && (Step {
                    world: final(inner)@,
                    out: r.1@,
                }) == teardown_step(old(inner)@, old(self).legs@[k]) && takes_leave(
                    r.0,
                    k,
                    old(self).legs@[k].bye,
                    host@,
                    branch,
                ),
            !leg_of_call(old(self).legs@, call) ==> final(self).legs@ == old(self).legs@
                && final(inner)@ == old(inner)@ && r.0 is None && r.1@ == router::silent(),
    {
        match self.find_by_brew_call(call) {
            Some((call_id, bye)) => {
                let farewell = match bye {
                    Some(d) => {
                        let request = bye_request(&call_id, &d, host, branch);
                        Some(Farewell { request, target_addr: d.target_addr })
                    },
                    None => None,
                };
                let ghost k = call_id@;
                let told = self.teardown(inner, &call_id);
                assert(old(self).legs@.dom().contains(k));
                (farewell, told)
            },
            None => (None, no_batch()),
        }
    }
}

/// A bridged call that the Brew side has already ended is undone without telling the Brew
/// side again.
pub proof fn ended_calls_are_not_told_again(w: World, leg: LegRecord)
    requires
        !w.calls.dom().contains(leg.brew_call_id),
    ensures
        teardown_step(w, leg).out == router::silent(),
{
}

/// A header value `SIP/2.0/UDP host;branch=...` with a fresh branch.
pub open spec fn via_text(host: Seq<char>, branch: Id) -> Seq<char> {
    "SIP/2.0/UDP "@ + host + ";branch=z9hG4bK"@ + ids::hex_text(ids::id_bytes(branch))
}

fn via_value(host: &str, branch: Id) -> (r: String)
    ensures
        r@ == via_text(host@, branch),
{
    let mut out = String::new();
    push_text(&mut out, "SIP/2.0/UDP ");
    push_text(&mut out, host);
    push_text(&mut out, ";branch=z9hG4bK");
    push_text(&mut out, id_text(branch).as_str());
    assert(out@ =~= via_text(host@, branch));
    out
}

/// The request that ends a SIP dialog.
pub open spec fn bye_model(call_id: Seq<char>, d: ByeModel, host: Seq<char>, branch: Id) -> SipModel {
    (SipModel {
        start: StartModel::Request { method: MethodModel::Bye, uri: d.request_uri },
        headers: Seq::empty(),
        body: Seq::empty(),
    }).with_header("Via"@, via_text(host, branch)).with_header(
        "Max-Forwards"@,
        "70"@,
    ).with_header("From"@, d.from).with_header("To"@, d.to).with_header(
        "Call-ID"@,
        call_id,
    ).with_header("CSeq"@, "2 BYE"@)
}

/// Builds the request that ends a SIP dialog.
pub fn bye_request(call_id: &str, d: &DialogBye, host: &str, branch: Id) -> (r: SipMessage)
    ensures
        r@ == bye_model(call_id@, d@, host@, branch),
{
    let mut bye = SipMessage::new_request(Method::Bye, d.request_uri.as_str());
    bye.push_header("Via", via_value(host, branch).as_str());
    bye.push_header("Max-Forwards", "70");
    bye.push_header("From", d.from.as_str());
    bye.push_header("To", d.to.as_str());
    bye.push_header("Call-ID", call_id);
    bye.push_header("CSeq", "2 BYE");
    bye
}

/// `<sip:user@host>`.
pub open spec fn address_text(user: Seq<char>, host: Seq<char>) -> Seq<char> {
    "<sip:"@ + user + "@"@ + host + ">"@
}

fn address(user: &str, host: &str) -> (r: String)
    ensures
        r@ == address_text(user@, host@),
{
    let mut out = String::new();
    push_text(&mut out, "<sip:");
    push_text(&mut out, user);
    push_text(&mut out, "@");
    push_text(&mut out, host);
    push_text(&mut out, ">");
    assert(out@ =~= address_text(user@, host@));
    out
}

/// A response that accepts a call and carries the media answer.
pub open spec fn answer_model(base: SipModel, host: Seq<char>, sdp: Seq<u8>) -> SipModel {
    SipModel {
        body: sdp,
        ..base.with_header("Contact"@, address_text("brew"@, host)).with_header(
            "Content-Type"@,
            "application/sdp"@,
        )
    }
}

/// Completes a response that accepts a call.
pub fn accept_call(base: SipMessage, host: &str, sdp: Vec<u8>) -> (r: SipMessage)
    ensures
        r@ == answer_model(base@, host@, sdp@),
{
    let mut ok = base;
    ok.push_header("Contact", address("brew", host).as_str());
    ok.push_header("Content-Type", "application/sdp");
    ok.set_body(sdp);
    ok
}

/// How the dialog of an accepted call can be ended later: toward the contact of
/// the caller, with the two parties exchanged.
pub open spec fn dialog_of(ok: SipModel, req: SipModel, caller: Seq<char>) -> Option<ByeModel> {
    match (ok.header("to"@), ok.header("from"@)) {
        (Some(to), Some(from)) => Some(
            ByeModel {
                request_uri: match req.header("contact"@) {
                    Some(c) => message::address_uri(c),
                    None => "sip:"@ + caller,
                },
                target_addr: caller,
                from: to,
                to: from,
            },
        ),
        _ => None,
    }
}

/// Remembers how to end the dialog of an accepted call.
pub fn dialog_bye(ok: &SipMessage, req: &SipMessage, caller: &str) -> (r: Option<DialogBye>)
    ensures
        opt_bye(r) == dialog_of(ok@, req@, caller@),
{
    let uri = match req.header("contact") {
        Some(c) => extract_uri(c),
        None => {
            let mut s = "sip:".to_owned();
            push_text(&mut s, caller);
            s
        },
    };
    match (ok.header("to"), ok.header("from")) {
        (Some(to), Some(from)) => Some(
            DialogBye {
                request_uri: uri,
                target_addr: caller.to_owned(),
                from: to.to_owned(),
                to: from.to_owned(),
            },
        ),
        _ => None,
    }
}

/// Where a Brew call is placed on the SIP side.
#[derive(Debug)]
pub enum OutboundTarget {
    /// A registered extension; its contact has to be looked up.
    Extension { aor: String },
    /// A trunk: its address and the URI to call there.
    Trunk { trunk: String, remote_host: String, uri: String },
}

pub enum TargetModel {
    Extension { aor: Seq<char> },
    Trunk { trunk: Seq<char>, remote_host: Seq<char>, uri: Seq<char> },
}

impl View for OutboundTarget {
    type V = TargetModel;

    open spec fn view(&self) -> TargetModel {
        match *self {
            OutboundTarget::Extension { aor } => TargetModel::Extension { aor: aor@ },
            OutboundTarget::Trunk { trunk, remote_host, uri } => TargetModel::Trunk {
                trunk: trunk@,
                remote_host: remote_host@,
                uri: uri@,
            },
        }
    }
}

/// URI of a number at a trunk, whose port does not count.
pub open spec fn trunk_uri(number: Seq<char>, remote_host: Seq<char>) -> Seq<char> {
    "sip:"@ + number + "@"@ + remote_host.subrange(0, text::find_char(remote_host, ':', 0))
}

/// Where a Brew call goes on the SIP side: only extensions and known trunks are
/// destinations.
pub open spec fn outbound_target_of(
    routes: Seq<RouteModel>,
    trunks: Map<Seq<char>, TrunkModel>,
    origin: OriginModel,
    dialled: Seq<char>,
) -> Option<TargetModel> {
    match routing::resolution(routes, origin, dialled) {
        Some((leg, _)) => match leg {
            LegModel::SipExtension { aor } => Some(TargetModel::Extension { aor }),
            LegModel::SipTrunk { trunk, number } => if trunks.dom().contains(trunk) {
                Some(
                    TargetModel::Trunk {
                        trunk,
                        remote_host: trunks[trunk].remote_host,
                        uri: trunk_uri(number, trunks[trunk].remote_host),
                    },
                )
            } else {
                None
            },
            _ => None,
        },
        None => None,
    }
}

/// Decides where a Brew call goes on the SIP side.
pub fn brew_to_sip(
    routes: &[VoiceRouteConfig],
    trunks: &Table<String, SipTrunkConfig>,
    origin: &CallOrigin,
    dialled: &str,
) -> (r: Option<OutboundTarget>)
    ensures
        match r {
            Some(t) => outbound_target_of(config::route_models(routes@), trunks@, origin@, dialled@)
                == Some(t@),
            None => outbound_target_of(config::route_models(routes@), trunks@, origin@, dialled@) is None,
        },
{
    let leg = match resolve(routes, origin, dialled) {
        Some((leg, _)) => leg,
        None => {
            return None;
        },
    };
    match leg {
        LegEndpoint::SipExtension { aor } => Some(OutboundTarget::Extension { aor }),
        LegEndpoint::SipTrunk { trunk, number } => {
            match trunks.get(&trunk) {
                Some(tc) => {
                    let h = chars_of(tc.remote_host.as_str());
                    let k: usize = find_char_from(&h, ':', 0);
                    let host = string_of(slice_subrange(&h, 0, k));
                    let mut uri = "sip:".to_owned();
                    push_text(&mut uri, number.as_str());
                    push_text(&mut uri, "@");
                    push_text(&mut uri, host.as_str());
                    assert(uri@ =~= trunk_uri(number@, tc.remote_host@));
                    Some(OutboundTarget::Trunk { trunk, remote_host: tc.remote_host.clone(), uri })
                },
                None => None,
            }
        },
        _ => None,
    }
}

/// Where an extension is registered: its contact, and where it registered from.
#[derive(Debug)]
pub struct Registration {
    pub contact: String,
    pub source: String,
}

/// What to call on the SIP side, and where.
#[derive(Debug)]
pub struct Destination {
    pub uri: String,
    pub addr: String,
}

/// The first address that is known.
pub open spec fn first_known(a: Option<String>, b: Option<String>) -> Option<Seq<char>> {
    match (a, b) {
        (Some(a), _) => Some(a@),
        (None, Some(b)) => Some(b@),
        (None, None) => None,
    }
}

/// Decides whether a Brew call can be placed, and where. An extension is called at its
/// contact, if it is registered. A trunk is called at the address that its host and port
/// spell, or else at the one that it was learned at; without either it cannot be called.
pub fn outbound_destination(
    target: OutboundTarget,
    registration: Option<Registration>,
    configured: Option<String>,
    learned: Option<String>,
) -> (r: Option<Destination>)
    ensures
        match target@ {
            TargetModel::Extension { .. } => match (r, registration) {
                (Some(d), Some(reg)) => d.uri@ == reg.contact@ && d.addr@ == reg.source@,
                (None, None) => true,
                _ => false,
            },
            TargetModel::Trunk { uri, .. } => match (r, first_known(configured, learned)) {
                (Some(d), Some(addr)) => d.uri@ == uri && d.addr@ == addr,
                (None, None) => true,
                _ => false,
            },
        },
{
    match target {
        OutboundTarget::Extension { .. } => match registration {
            Some(reg) => Some(Destination { uri: reg.contact, addr: reg.source }),
            None => None,
        },
        OutboundTarget::Trunk { uri, .. } => match (configured, learned) {
            (Some(addr), _) => Some(Destination { uri, addr }),
            (None, Some(addr)) => Some(Destination { uri, addr }),
            (None, None) => None,
        },
    }
}

/// Who calls, in the INVITE of a Brew call: the subscriber at this host, with a
/// fresh tag.
pub open spec fn invite_from(issi: u32, host: Seq<char>, tag: Id) -> Seq<char> {
    address_text(text::decimal(issi as nat), host) + ";tag="@ + ids::hex_text(ids::id_bytes(tag))
}

/// Who is called.
pub open spec fn invite_to(uri: Seq<char>) -> Seq<char> {
    "<"@ + message::address_uri(uri) + ">"@
}

/// The INVITE for a Brew call.
pub open spec fn invite_model(
    call_id: Seq<char>,
    issi: u32,
    uri: Seq<char>,
    host: Seq<char>,
    tag: Id,
    branch: Id,
    sdp: Seq<u8>,
) -> SipModel {
    SipModel {
        body: sdp,
        ..(SipModel {
            start: StartModel::Request { method: MethodModel::Invite, uri },
            headers: Seq::empty(),
            body: Seq::empty(),
        }).with_header("Via"@, via_text(host, branch)).with_header(
            "Max-Forwards"@,
            "70"@,
        ).with_header("From"@, invite_from(issi, host, tag)).with_header(
            "To"@,
            invite_to(uri),
        ).with_header("Call-ID"@, call_id).with_header("CSeq"@, "1 INVITE"@).with_header(
            "Contact"@,
            address_text(text::decimal(issi as nat), host),
        ).with_header("Content-Type"@, "application/sdp"@)
    }
}

/// Builds the INVITE for a Brew call, and how to end its dialog.
pub fn outbound_invite(
    call_id: &str,
    issi: u32,
    uri: &str,
    target_addr: &str,
    host: &str,
    tag: Id,
    branch: Id,
    sdp: Vec<u8>,
) -> (r: (SipMessage, DialogBye))
    ensures
        r.0@ == invite_model(call_id@, issi, uri@, host@, tag, branch, sdp@),
        r.1@ == (ByeModel {
            request_uri: uri@,
            target_addr: target_addr@,
            from: invite_from(issi, host@, tag),
            to: invite_to(uri@),
        }),
{
    let user = crate::text::decimal_text(issi as u64);
    let contact = address(user.as_str(), host);
    let mut from = contact.clone();
    push_text(&mut from, ";tag=");
    push_text(&mut from, id_text(tag).as_str());
    let mut to = "<".to_owned();
    push_text(&mut to, extract_uri(uri).as_str());
    push_text(&mut to, ">");
    let mut invite = SipMessage::new_request(Method::Invite, uri);
    invite.push_header("Via", via_value(host, branch).as_str());
    invite.push_header("Max-Forwards", "70");
    invite.push_header("From", from.as_str());
    invite.push_header("To", to.as_str());
    invite.push_header("Call-ID", call_id);
    invite.push_header("CSeq", "1 INVITE");
    invite.push_header("Contact", contact.as_str());
    invite.push_header("Content-Type", "application/sdp");
    invite.set_body(sdp);
    (
        invite,
        DialogBye {
            request_uri: uri.to_owned(),
            target_addr: target_addr.to_owned(),
            from,
            to,
        },
    )
}

/// Call-ID of a call that the Brew side places: `brew-` and a fresh identifier.
pub fn outbound_call_id(id: Id) -> (r: String)
    ensures
        r@ == "brew-"@ + ids::hex_text(ids::id_bytes(id)),
{
    let mut out = "brew-".to_owned();
    push_text(&mut out, id_text(id).as_str());
    out
}

/// Ending a bridged call leaves no trace of its virtual client in the
/// connections, in its group and in its call, and frees the floor that the call
/// held.
pub proof fn teardown_leaves_no_trace(w: World, leg: LegRecord)
    ensures
        ({
            let after = teardown_step(w, leg).world;
            &&& !after.clients.dom().contains(leg.virtual_client)
            &&& !after.calls.dom().contains(leg.brew_call_id)
            &&& leg.group matches Some(g) ==> {
                &&& after.group_clients.dom().contains(g) ==> !after.group_clients[g].contains(
                    leg.virtual_client,
                )
                &&& after.group_floor.dom().contains(g) ==> after.group_floor[g] != leg.brew_call_id
            }
        }),
{
}

/// Setting up a bridged private call and ending it again restores the state, for
/// fresh identifiers.
pub proof fn private_bridge_is_undone(
    w: World,
    target: Id,
    issi: u32,
    call: Id,
    virtual_client: Id,
    now_ms: u64,
    now: u64,
    bye: Option<ByeModel>,
)
    requires
        !w.clients.dom().contains(virtual_client),
        !w.calls.dom().contains(call),
    ensures
        teardown_step(
            private_bridge_step(w, target, issi, call, virtual_client, now_ms, now).world,
            LegRecord { virtual_client, brew_call_id: call, group: None, bye },
        ).world == w,
{
    let after = teardown_step(
        private_bridge_step(w, target, issi, call, virtual_client, now_ms, now).world,
        LegRecord { virtual_client, brew_call_id: call, group: None, bye },
    ).world;
    assert(after.clients =~= w.clients);
    assert(after.calls =~= w.calls);
}

/// Placing a Brew call toward SIP and ending it again restores the state, for fresh
/// identifiers.
pub proof fn outbound_call_is_undone(
    w: World,
    link: BrewCallLink,
    virtual_client: Id,
    now_ms: u64,
    now: u64,
    bye: Option<ByeModel>,
)
    requires
        !w.clients.dom().contains(virtual_client),
        !w.calls.dom().contains(link.call_id),
    ensures
        teardown_step(
            outbound_world(w, link, virtual_client, now_ms, now),
            LegRecord { virtual_client, brew_call_id: link.call_id, group: None, bye },
        ).world == w,
{
    let after = teardown_step(
        outbound_world(w, link, virtual_client, now_ms, now),
        LegRecord { virtual_client, brew_call_id: link.call_id, group: None, bye },
    ).world;
    assert(after.clients =~= w.clients);
    assert(after.calls =~= w.calls);
}

/// Setting up a bridged group call and ending it again restores the connections, the calls
/// and the members of every group, for fresh identifiers; the floor of the group is free
/// afterwards, and the other floors are as they were.
pub proof fn group_bridge_is_undone(
    w: World,
    gssi: u32,
    call: Id,
    virtual_client: Id,
    now_ms: u64,
    now: u64,
    bye: Option<ByeModel>,
)
    requires
        !w.clients.dom().contains(virtual_client),
        !w.calls.dom().contains(call),
        w.group_clients.dom().contains(gssi) ==> !w.group_clients[gssi].contains(virtual_client),
    ensures
        ({
            let after = teardown_step(
                group_bridge_step(w, gssi, call, virtual_client, now_ms, now).world,
                LegRecord { virtual_client, brew_call_id: call, group: Some(gssi), bye },
            ).world;
            &&& after.group_clients.dom() == w.group_clients.dom().insert(gssi)
            &&& after.group_clients[gssi] == (if w.group_clients.dom().contains(gssi) {
                w.group_clients[gssi]
            } else {
                Set::empty()
            })
            &&& after == World {
                group_clients: w.group_clients.insert(gssi, after.group_clients[gssi]),
                group_floor: w.group_floor.remove(gssi),
                ..w
            }
        }),
{
    let set_up = group_bridge_step(w, gssi, call, virtual_client, now_ms, now).world;
    let after = teardown_step(
        set_up,
        LegRecord { virtual_client, brew_call_id: call, group: Some(gssi), bye },
    ).world;
    let had = if w.group_clients.dom().contains(gssi) {
        w.group_clients[gssi]
    } else {
        Set::empty()
    };
    assert(set_up.group_clients[gssi] =~= had.insert(virtual_client));
    assert(after.group_clients[gssi] =~= had);
    assert(after.group_clients =~= w.group_clients.insert(gssi, had));
    assert(after.clients =~= w.clients);
    assert(after.calls =~= w.calls);
    assert(after.group_floor =~= w.group_floor.remove(gssi));
}

/// In a bridged private call the voice frames of the called client go to the
/// virtual client, and the other way round.
pub proof fn bridged_voice_flows_both_ways(
    w: World,
    target: Id,
    issi: u32,
    call: Id,
    virtual_client: Id,
    now_ms: u64,
    now: u64,
    raw: Seq<u8>,
)
    requires
        w.clients.dom().contains(target),
        target != virtual_client,
    ensures
        ({
            let after = private_bridge_step(w, target, issi, call, virtual_client, now_ms, now).world;
            let from_target = crate::router::call_frame_out(after, target, call, raw);
            let from_virtual = crate::router::call_frame_out(after, virtual_client, call, raw);
            &&& from_target.sent.len() == 1
            &&& from_target.sent[0].to == Set::<Id>::empty().insert(virtual_client)
            &&& from_virtual.sent.len() == 1
            &&& from_virtual.sent[0].to == Set::<Id>::empty().insert(target)
        }),
{
    let after = private_bridge_step(w, target, issi, call, virtual_client, now_ms, now).world;
    let from_target = crate::router::call_frame_out(after, target, call, raw);
    let from_virtual = crate::router::call_frame_out(after, virtual_client, call, raw);
    assert(from_target.sent[0].to =~= Set::<Id>::empty().insert(virtual_client));
    assert(from_virtual.sent[0].to =~= Set::<Id>::empty().insert(target));
}

} // verus!

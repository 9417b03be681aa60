//! Routing of Brew packets: who receives what, and what the server remembers.
use crate::bytes::copy_range;
use crate::ids::Id;
use crate::position;
use crate::position::{ascii_text, find_report, parse_position, LipFix};
use crate::protocol;
use crate::protocol::{
    build_call_cause, parse_with_version, raw_peer_pair, BrewMessage, CallPayload, MessageModel,
    PayloadModel, SubscriberMessage, CALL_ALERT, CALL_CONNECT_CONFIRM, CALL_CONNECT_REQUEST,
    CALL_GROUP_IDLE, CALL_RELEASE, CALL_SETUP_ACCEPT, CALL_SETUP_REJECT, CALL_SETUP_REQUEST,
    CALL_SIMPLEX_GRANTED, CALL_SIMPLEX_IDLE, FRAME_SDS_REPORT, FRAME_SDS_TRANSFER,
    FRAME_TRAFFIC_CHANNEL, SUB_AFFILIATE, SUB_DEAFFILIATE, SUB_DEREGISTER, SUB_REGISTER,
    SUB_REREGISTER,
};
use crate::registrations::RegKind;
use crate::state;
use crate::state::{
    ActiveCall, CallKind, CallModel, ClientId, ClientMode, ClientModel, Inner, SdsModel, SdsRoute,
    Subscriber, SubscriberModel, World,
};
use crate::table;
use crate::table::KeySet;
use crate::text;
use crate::text::decimal_text;
use vstd::prelude::*;
use vstd::slice::slice_subrange;

verus! {

/// Operator's choices for routing.
#[derive(Debug, Clone, Copy, PartialEq, Eq, Structural)]
pub struct RoutingPolicy {
    /// Send group calls to every client, whatever it is affiliated to.
    pub route_without_affiliations: bool,
    /// Send a group call to every client while nobody is affiliated.
    pub fallback_broadcast_when_no_affiliations: bool,
    pub allow_multiple_calls_per_group: bool,
    pub higher_priority_number_wins: bool,
    /// Cause sent to the participants of a displaced call.
    pub preempt_cause: u8,
    pub session_ttl_seconds: u64,
}

/// One packet for a set of clients.
#[derive(Debug)]
pub struct Batch {
    pub to: KeySet<Id>,
    pub packet: Vec<u8>,
}

#[verifier::ext_equal]
pub struct BatchModel {
    pub to: Set<Id>,
    pub packet: Seq<u8>,
}

impl View for Batch {
    type V = BatchModel;

    open spec fn view(&self) -> BatchModel {
        BatchModel { to: self.to@, packet: self.packet@ }
    }
}

/// Something that happened and that the rest of the server wants to know.
#[derive(Debug)]
pub enum Event {
    CallStarted { id: Id, kind: CallKind, source: u32, destination: u32, priority: u8 },
    CallEnded { id: Id },
    VoiceFrame { id: Id },
    Sds { id: Id, source: u32, destination: u32 },
    SdsReport { id: Id },
    /// A short-data message reports where its sender is.
    Position { issi: u32, fix: LipFix },
    /// A short-data message holds a text that can be read as a position of its sender.
    Beacon { issi: u32, text: String },
    /// A terminal registered or deregistered a subscriber.
    Registration { issi: u32, kind: RegKind },
    /// A private call to nobody registered here, for the SIP side to route.
    OfferSip { id: Id, client: Id, issi: u32, dialled: String },
}

pub enum EventModel {
    CallStarted { id: Id, kind: CallKind, source: u32, destination: u32, priority: u8 },
    CallEnded { id: Id },
    VoiceFrame { id: Id },
    Sds { id: Id, source: u32, destination: u32 },
    SdsReport { id: Id },
    Position { issi: u32, lat: int, lon: int },
    Beacon { issi: u32, text: Seq<char> },
    Registration { issi: u32, kind: RegKind },
    OfferSip { id: Id, client: Id, issi: u32, dialled: Seq<char> },
}

impl View for Event {
    type V = EventModel;

    open spec fn view(&self) -> EventModel {
        match *self {
            Event::CallStarted { id, kind, source, destination, priority } =>
                EventModel::CallStarted { id, kind, source, destination, priority },
            Event::CallEnded { id } => EventModel::CallEnded { id },
            Event::VoiceFrame { id } => EventModel::VoiceFrame { id },
            Event::Sds { id, source, destination } => EventModel::Sds { id, source, destination },
            Event::SdsReport { id } => EventModel::SdsReport { id },
            Event::Position { issi, fix } => EventModel::Position {
                issi,
                lat: fix.lat as int,
                lon: fix.lon as int,
            },
            Event::Beacon { issi, text } => EventModel::Beacon { issi, text: text@ },
            Event::Registration { issi, kind } => EventModel::Registration { issi, kind },
            Event::OfferSip { id, client, issi, dialled } => EventModel::OfferSip {
                id,
                client,
                issi,
                dialled: dialled@,
            },
        }
    }
}

/// What routing one packet makes the server do.
#[derive(Debug)]
pub struct Routed {
    pub sent: Vec<Batch>,
    pub events: Vec<Event>,
}

/// Packets and events, by their models.
#[verifier::ext_equal]
pub struct RoutedModel {
    pub sent: Seq<BatchModel>,
    pub events: Seq<EventModel>,
}

impl View for Routed {
    type V = RoutedModel;

    open spec fn view(&self) -> RoutedModel {
        RoutedModel {
            sent: self.sent@.map_values(|b: Batch| b@),
            events: self.events@.map_values(|e: Event| e@),
        }
    }
}

/// The server's state after a packet, and what it did.
#[verifier::ext_equal]
pub struct Step {
    pub world: World,
    pub out: RoutedModel,
}

/// Nothing sent, nothing reported.
pub open spec fn silent() -> RoutedModel {
    RoutedModel { sent: Seq::empty(), events: Seq::empty() }
}

/// One packet to the connected ones among some clients.
pub open spec fn to_connected(w: World, to: Set<Id>, packet: Seq<u8>) -> BatchModel {
    BatchModel { to: to.intersect(w.clients.dom()), packet }
}

/// The call that holds a group's floor and has to be beaten for it.
pub open spec fn floor_rival(w: World, p: RoutingPolicy, id: Id, gssi: u32) -> Option<Id> {
    if !p.allow_multiple_calls_per_group && w.group_floor.dom().contains(gssi)
        && w.group_floor[gssi] != id && w.calls.dom().contains(w.group_floor[gssi]) {
        Some(w.group_floor[gssi])
    } else {
        None
    }
}

/// Whether a priority displaces another.
pub open spec fn beats(p: RoutingPolicy, new: u8, old: u8) -> bool {
    if p.higher_priority_number_wins {
        new > old
    } else {
        new < old
    }
}

/// The clients that a group call goes to.
pub open spec fn group_targets(w: World, p: RoutingPolicy, gssi: u32) -> Set<Id> {
    let affiliated = if w.group_clients.dom().contains(gssi) {
        w.group_clients[gssi]
    } else {
        Set::empty()
    };
    if p.route_without_affiliations || (affiliated == Set::<Id>::empty()
        && p.fallback_broadcast_when_no_affiliations) {
        w.clients.dom()
    } else {
        affiliated
    }
}

/// A group transmission. Against a rival of equal or higher priority it is
/// ignored; a rival of lower priority is released toward all its participants
/// and forgotten. The call then takes the floor and goes to the group.
pub open spec fn group_tx_step(
    w: World,
    p: RoutingPolicy,
    now: u64,
    client: Id,
    id: Id,
    source: u32,
    gssi: u32,
    priority: u8,
    raw: Seq<u8>,
) -> Step {
    let rival = floor_rival(w, p, id, gssi);
    if rival is Some && !beats(p, priority, w.calls[rival->0].priority) {
        Step { world: w, out: silent() }
    } else {
        let targets = group_targets(w, p, gssi).remove(client);
        let call = CallModel {
            kind: CallKind::Group,
            owner: client,
            source_issi: source,
            destination: gssi,
            priority,
            peers: targets,
            started_at: now,
        };
        let release = match rival {
            Some(old) => seq![
                to_connected(
                    w,
                    w.calls[old].peers.insert(w.calls[old].owner),
                    protocol::call_cause_packet(CALL_GROUP_IDLE, old, p.preempt_cause),
                ),
            ],
            None => Seq::empty(),
        };
        let calls = match rival {
            Some(old) => w.calls.remove(old),
            None => w.calls,
        };
        Step {
            world: World {
                calls: calls.insert(id, call),
                group_floor: w.group_floor.insert(gssi, id),
                ..w
            },
            out: RoutedModel {
                sent: release.push(to_connected(w, targets, raw)),
                events: seq![
                    EventModel::CallStarted {
                        id,
                        kind: CallKind::Group,
                        source,
                        destination: gssi,
                        priority,
                    },
                ],
            },
        }
    }
}

/// The clients that a short-data message goes to: the one that the destination
/// is registered on, and those affiliated to it as a group.
pub open spec fn sds_targets(w: World, destination: u32) -> Set<Id> {
    let one = if w.subscribers.dom().contains(destination) {
        Set::<Id>::empty().insert(w.subscribers[destination].client_id)
    } else {
        Set::empty()
    };
    let many = if w.group_clients.dom().contains(destination) {
        w.group_clients[destination]
    } else {
        Set::empty()
    };
    one.union(many)
}

/// A short-data header: opens a transaction toward the destination, unless
/// nobody but the sender could receive it.
pub open spec fn sds_header_step(
    w: World,
    now: u64,
    client: Id,
    id: Id,
    source: u32,
    destination: u32,
    raw: Seq<u8>,
) -> Step {
    let targets = sds_targets(w, destination).remove(client);
    if targets == Set::<Id>::empty() {
        Step { world: w, out: silent() }
    } else {
        Step {
            world: World {
                sds_routes: w.sds_routes.insert(
                    id,
                    SdsModel {
                        source_client: client,
                        targets,
                        source_issi: source,
                        destination,
                        created_at: now,
                    },
                ),
                ..w
            },
            out: RoutedModel {
                sent: seq![to_connected(w, targets, raw)],
                events: seq![EventModel::Sds { id, source, destination }],
            },
        }
    }
}

/// What a short-data message tells of the position of its sender: a location report in
/// its body, or else a text in it that can be read as a position.
pub open spec fn told_position(issi: u32, body: Seq<u8>) -> Seq<EventModel> {
    match position::report_in(body) {
        Some((lat, lon)) => seq![EventModel::Position { issi, lat, lon }],
        None => if position::readings(position::ascii_in(body)).len() > 0 {
            seq![EventModel::Beacon { issi, text: position::ascii_in(body) }]
        } else {
            Seq::empty()
        },
    }
}

/// What a frame carries behind its head.
pub open spec fn frame_body(raw: Seq<u8>) -> Seq<u8> {
    if raw.len() >= 20 {
        raw.subrange(20, raw.len() as int)
    } else {
        Seq::empty()
    }
}

/// The body of a short-data message: goes where its header went, and only from
/// the client that opened the transaction. A position in it is the sender's.
pub open spec fn sds_transfer_out(w: World, client: Id, id: Id, raw: Seq<u8>) -> RoutedModel {
    if w.sds_routes.dom().contains(id) && w.sds_routes[id].source_client == client {
        RoutedModel {
            sent: seq![to_connected(w, w.sds_routes[id].targets, raw)],
            events: told_position(w.sds_routes[id].source_issi, frame_body(raw)),
        }
    } else {
        silent()
    }
}

/// A short-data report: goes back to the client that opened the transaction,
/// and only from one of its targets. With a single target the transaction is
/// complete; otherwise it stays open for further reports.
pub open spec fn sds_report_step(w: World, client: Id, id: Id, raw: Seq<u8>) -> Step {
    if w.sds_routes.dom().contains(id) && w.sds_routes[id].targets.contains(client) {
        let route = w.sds_routes[id];
        Step {
            world: World {
                sds_routes: if route.targets.len() == 1 {
                    w.sds_routes.remove(id)
                } else {
                    w.sds_routes
                },
                ..w
            },
            out: RoutedModel {
                sent: seq![to_connected(w, Set::<Id>::empty().insert(route.source_client), raw)],
                events: seq![EventModel::SdsReport { id }],
            },
        }
    } else {
        Step { world: w, out: silent() }
    }
}

/// Who calls whom in a private call set-up, and the digits that were dialled.
pub open spec fn private_parties(payload: PayloadModel) -> Option<(u32, u32, Seq<char>)> {
    match payload {
        PayloadModel::CircularCall { source, destination, number, .. } => Some(
            (
                source,
                destination,
                if number.len() > 0 {
                    number
                } else {
                    text::decimal(destination as nat)
                },
            ),
        ),
        _ => match protocol::raw_pair(payload) {
            Some((source, destination)) => Some(
                (source, destination, text::decimal(destination as nat)),
            ),
            None => None,
        },
    }
}

/// A private call set-up. A destination registered on another client makes a
/// call between the two; one that is not registered is offered to the SIP
/// side.
pub open spec fn private_setup_step(
    w: World,
    now: u64,
    client: Id,
    id: Id,
    payload: PayloadModel,
    raw: Seq<u8>,
) -> Step {
    match private_parties(payload) {
        None => Step { world: w, out: silent() },
        Some((source, destination, dialled)) => if !w.subscribers.dom().contains(destination) {
            Step {
                world: w,
                out: RoutedModel {
                    sent: Seq::empty(),
                    events: seq![EventModel::OfferSip { id, client, issi: source, dialled }],
                },
            }
        } else {
            let target = w.subscribers[destination].client_id;
            if target == client {
                Step { world: w, out: silent() }
            } else {
                let peers = Set::<Id>::empty().insert(target);
                Step {
                    world: World {
                        calls: w.calls.insert(
                            id,
                            CallModel {
                                kind: CallKind::Private,
                                owner: client,
                                source_issi: source,
                                destination,
                                priority: 0,
                                peers,
                                started_at: now,
                            },
                        ),
                        ..w
                    },
                    out: RoutedModel {
                        sent: seq![to_connected(w, peers, raw)],
                        events: seq![
                            EventModel::CallStarted {
                                id,
                                kind: CallKind::Private,
                                source,
                                destination,
                                priority: 0,
                            },
                        ],
                    },
                }
            }
        },
    }
}

/// Call control within a private call: goes to everybody else in the call.
pub open spec fn private_control_out(w: World, client: Id, id: Id, raw: Seq<u8>) -> RoutedModel {
    if w.calls.dom().contains(id) && w.calls[id].kind == CallKind::Private {
        let c = w.calls[id];
        RoutedModel {
            sent: seq![to_connected(w, c.peers.insert(c.owner).remove(client), raw)],
            events: Seq::empty(),
        }
    } else {
        silent()
    }
}

/// The clients that hear the call: the peers, and in a private call its owner
/// too.
pub open spec fn listeners(c: CallModel) -> Set<Id> {
    if c.kind == CallKind::Private {
        c.peers.insert(c.owner)
    } else {
        c.peers
    }
}

/// Whether a client may speak in a call: only the owner of a group call, any
/// participant of a private one.
pub open spec fn may_speak(c: CallModel, client: Id) -> bool {
    if c.kind == CallKind::Group {
        c.owner == client
    } else {
        c.involves(client)
    }
}

/// A voice frame: goes to the other listeners, from whoever may speak.
pub open spec fn call_frame_out(w: World, client: Id, id: Id, raw: Seq<u8>) -> RoutedModel {
    if w.calls.dom().contains(id) && may_speak(w.calls[id], client) {
        RoutedModel {
            sent: seq![to_connected(w, listeners(w.calls[id]).remove(client), raw)],
            events: seq![EventModel::VoiceFrame { id }],
        }
    } else {
        silent()
    }
}

/// The end of a call, from whoever may speak in it: the call is forgotten, its
/// floor is freed, and the other listeners are told.
pub open spec fn end_call_step(w: World, client: Id, id: Id, raw: Seq<u8>) -> Step {
    if w.calls.dom().contains(id) && may_speak(w.calls[id], client) {
        let c = w.calls[id];
        Step {
            world: World {
                calls: w.calls.remove(id),
                group_floor: if c.kind == CallKind::Group && w.group_floor.dom().contains(
                    c.destination,
                ) && w.group_floor[c.destination] == id {
                    w.group_floor.remove(c.destination)
                } else {
                    w.group_floor
                },
                ..w
            },
            out: RoutedModel {
                sent: seq![to_connected(w, listeners(c).remove(client), raw)],
                events: seq![EventModel::CallEnded { id }],
            },
        }
    } else {
        Step { world: w, out: silent() }
    }
}

/// A call ended by the server itself: all its participants are told, it is forgotten,
/// and so is the floor that it held.
pub open spec fn force_end_step(w: World, id: Id) -> Step {
    if w.calls.dom().contains(id) {
        let c = w.calls[id];
        Step {
            world: World {
                calls: w.calls.remove(id),
                group_floor: if c.kind == CallKind::Group && w.group_floor.dom().contains(
                    c.destination,
                ) && w.group_floor[c.destination] == id {
                    w.group_floor.remove(c.destination)
                } else {
                    w.group_floor
                },
                ..w
            },
            out: RoutedModel {
                sent: seq![
                    to_connected(
                        w,
                        c.peers.insert(c.owner),
                        protocol::call_cause_packet(
                            if c.kind == CallKind::Group {
                                CALL_GROUP_IDLE
                            } else {
                                CALL_RELEASE
                            },
                            id,
                            0,
                        ),
                    ),
                ],
                events: seq![EventModel::CallEnded { id }],
            },
        }
    } else {
        Step { world: w, out: silent() }
    }
}

/// Whether some subscriber registered through a client is in a group.
pub open spec fn in_group_through(
    subscribers: Map<u32, SubscriberModel>,
    client: Id,
    gssi: u32,
) -> bool {
    exists|i: u32| #[trigger]
        subscribers.dom().contains(i) && subscribers[i].client_id == client
            && subscribers[i].groups.contains(gssi)
}

/// Registration: the subscriber moves to this client, keeping its groups. A
/// client that it moves away from gives up its place in those groups.
pub open spec fn register_world(w: World, client: Id, issi: u32) -> World {
    let known = w.subscribers.dom().contains(issi);
    let before = w.subscribers[issi];
    let groups = if known {
        before.groups
    } else {
        Set::empty()
    };
    World {
        group_clients: if known && before.client_id != client {
            w.group_clients.map_entries(
                |g: u32, s: Set<Id>|
                    if before.groups.contains(g) {
                        s.remove(before.client_id).insert(client)
                    } else {
                        s
                    },
            )
        } else {
            w.group_clients
        },
        subscribers: w.subscribers.insert(
            issi,
            SubscriberModel { client_id: client, groups, mode: w.mode_of(client) },
        ),
        ..w
    }
}

/// A client gives up its place in the groups that none of its subscribers is
/// in any more.
pub open spec fn withdraw(
    group_clients: Map<u32, Set<Id>>,
    subscribers: Map<u32, SubscriberModel>,
    client: Id,
    groups: Set<u32>,
) -> Map<u32, Set<Id>> {
    group_clients.map_entries(
        |g: u32, s: Set<Id>|
            if groups.contains(g) && !in_group_through(subscribers, client, g) {
                s.remove(client)
            } else {
                s
            },
    )
}

/// Whether a subscriber is registered through a client.
pub open spec fn owns(w: World, client: Id, issi: u32) -> bool {
    w.subscribers.dom().contains(issi) && w.subscribers[issi].client_id == client
}

/// Deregistration by the client that the subscriber is registered through.
pub open spec fn deregister_world(w: World, client: Id, issi: u32) -> World {
    let subscribers = w.subscribers.remove(issi);
    World {
        subscribers,
        group_clients: withdraw(
            w.group_clients,
            subscribers,
            client,
            w.subscribers[issi].groups,
        ),
        ..w
    }
}

/// Affiliation: the subscriber, registered on the spot where it was unknown,
/// joins the groups, and so does its client.
pub open spec fn affiliate_world(w: World, client: Id, issi: u32, groups: Set<u32>) -> World {
    let before = if w.subscribers.dom().contains(issi) {
        w.subscribers[issi]
    } else {
        SubscriberModel { client_id: client, groups: Set::empty(), mode: w.mode_of(client) }
    };
    World {
        subscribers: w.subscribers.insert(
            issi,
            SubscriberModel { groups: before.groups.union(groups), ..before },
        ),
        group_clients: joined(w.group_clients, client, groups),
        ..w
    }
}

/// A client joins groups, which come into being where they are new.
pub open spec fn joined(m: Map<u32, Set<Id>>, client: Id, groups: Set<u32>) -> Map<u32, Set<Id>> {
    Map::new(
        |g: u32| m.dom().contains(g) || groups.contains(g),
        |g: u32|
            {
                let s = if m.dom().contains(g) {
                    m[g]
                } else {
                    Set::empty()
                };
                if groups.contains(g) {
                    s.insert(client)
                } else {
                    s
                }
            },
    )
}

/// Deaffiliation by the client that the subscriber is registered through.
pub open spec fn deaffiliate_world(w: World, client: Id, issi: u32, groups: Set<u32>) -> World {
    let before = w.subscribers[issi];
    let subscribers = w.subscribers.insert(
        issi,
        SubscriberModel { groups: before.groups.difference(groups), ..before },
    );
    World {
        subscribers,
        group_clients: withdraw(w.group_clients, subscribers, client, groups),
        ..w
    }
}

/// The peers that registrations are relayed to: all but the one that a packet
/// came from.
pub open spec fn other_peers(w: World, client: Id) -> Set<Id> {
    table::kept(w.clients, |c: ClientModel| c.mode == ClientMode::Peer).dom().remove(client)
}

/// A packet relayed to the other peers.
pub open spec fn relay(w: World, client: Id, raw: Seq<u8>) -> RoutedModel {
    RoutedModel {
        sent: seq![BatchModel { to: other_peers(w, client), packet: raw }],
        events: Seq::empty(),
    }
}

/// A registration packet, relayed to the other peers and noted if a terminal sent it.
pub open spec fn relay_noted(w: World, client: Id, issi: u32, kind: RegKind, raw: Seq<u8>) -> RoutedModel {
    RoutedModel {
        events: if w.mode_of(client) == ClientMode::Terminal {
            seq![EventModel::Registration { issi, kind }]
        } else {
            Seq::empty()
        },
        ..relay(w, client, raw)
    }
}

/// A subscriber message. What it teaches the server is relayed to the other
/// peers; a message about somebody else's subscriber is ignored.
pub open spec fn subscriber_step(
    w: World,
    client: Id,
    msg_type: u8,
    issi: u32,
    groups: Set<u32>,
    raw: Seq<u8>,
) -> Step {
    if msg_type == SUB_REGISTER || msg_type == SUB_REREGISTER {
        Step {
            world: register_world(w, client, issi),
            out: relay_noted(w, client, issi, RegKind::Register, raw),
        }
    } else if msg_type == SUB_DEREGISTER && owns(w, client, issi) {
        Step {
            world: deregister_world(w, client, issi),
            out: relay_noted(w, client, issi, RegKind::Deregister, raw),
        }
    } else if msg_type == SUB_AFFILIATE && (owns(w, client, issi) || !w.subscribers.dom().contains(
        issi,
    )) {
        Step { world: affiliate_world(w, client, issi, groups), out: relay(w, client, raw) }
    } else if msg_type == SUB_DEAFFILIATE && owns(w, client, issi) {
        Step { world: deaffiliate_world(w, client, issi, groups), out: relay(w, client, raw) }
    } else {
        Step { world: w, out: silent() }
    }
}

/// Whether a call state is control within a private call.
pub open spec fn is_private_control(state: u8) -> bool {
    ||| state == CALL_SETUP_ACCEPT
    ||| state == CALL_SETUP_REJECT
    ||| state == CALL_ALERT
    ||| state == CALL_CONNECT_REQUEST
    ||| state == CALL_CONNECT_CONFIRM
    ||| state == CALL_SIMPLEX_GRANTED
    ||| state == CALL_SIMPLEX_IDLE
}

/// What a message from a client makes the server do.
pub open spec fn message_step(
    w: World,
    p: RoutingPolicy,
    now: u64,
    client: Id,
    m: MessageModel,
    raw: Seq<u8>,
) -> Step {
    match m {
        MessageModel::Subscriber { msg_type, issi, groups, .. } => subscriber_step(
            w,
            client,
            msg_type,
            issi,
            groups.to_set(),
            raw,
        ),
        MessageModel::CallControl { call_state, identifier, payload } => match payload {
            PayloadModel::GroupTransmission { source, destination, priority, .. } => group_tx_step(
                w,
                p,
                now,
                client,
                identifier,
                source,
                destination,
                priority,
                raw,
            ),
            PayloadModel::ShortTransfer { source, destination } => sds_header_step(
                w,
                now,
                client,
                identifier,
                source,
                destination,
                raw,
            ),
            _ => if call_state == CALL_SETUP_REQUEST {
                private_setup_step(w, now, client, identifier, payload, raw)
            } else if is_private_control(call_state) {
                Step { world: w, out: private_control_out(w, client, identifier, raw) }
            } else if call_state == CALL_GROUP_IDLE || call_state == CALL_RELEASE {
                end_call_step(w, client, identifier, raw)
            } else {
                Step { world: w, out: silent() }
            },
        },
        MessageModel::Frame { frame_type, identifier, .. } => if frame_type == FRAME_SDS_TRANSFER {
            Step { world: w, out: sds_transfer_out(w, client, identifier, raw) }
        } else if frame_type == FRAME_SDS_REPORT {
            sds_report_step(w, client, identifier, raw)
        } else if frame_type == FRAME_TRAFFIC_CHANNEL {
            Step { world: w, out: call_frame_out(w, client, identifier, raw) }
        } else {
            Step { world: w, out: silent() }
        },
        _ => Step { world: w, out: silent() },
    }
}

/// What a packet from a client makes the server do: what has expired is
/// dropped; a malformed packet does nothing more; the version that the packet
/// shows is remembered; then the message is routed.
pub open spec fn packet_step(
    w: World,
    p: RoutingPolicy,
    now: u64,
    client: Id,
    raw: Seq<u8>,
) -> Step {
    let w1 = w.purged(now, p.session_ttl_seconds);
    match protocol::parsed(raw, w1.version_of(client)) {
        Err(_) => Step { world: w1, out: silent() },
        Ok((m, seen)) => message_step(w1.promote(client, seen), p, now, client, m, raw),
    }
}

fn nothing() -> (r: Routed)
    ensures
        r@ == silent(),
{
    let r = Routed { sent: Vec::new(), events: Vec::new() };
    assert(r@.sent =~= silent().sent);
    assert(r@.events =~= silent().events);
    r
}

fn push_batch(out: &mut Routed, to: KeySet<Id>, packet: &[u8])
    ensures
        final(out)@.sent == old(out)@.sent.push(BatchModel { to: to@, packet: packet@ }),
        final(out)@.events == old(out)@.events,
{
    let b = Batch { to, packet: copy_range(packet, 0, packet.len()) };
    assert(b.packet@ =~= packet@);
    out.sent.push(b);
    assert(out@.sent =~= old(out)@.sent.push(BatchModel { to: to@, packet: packet@ }));
}

fn push_event(out: &mut Routed, e: Event)
    ensures
        final(out)@.events == old(out)@.events.push(e@),
        final(out)@.sent == old(out)@.sent,
{
    out.events.push(e);
    assert(out@.events =~= old(out)@.events.push(e@));
}

/// The connected ones among some clients.
pub fn connected(inner: &Inner, of: &KeySet<Id>) -> (r: KeySet<Id>)
    ensures
        r@ == of@.intersect(inner@.clients.dom()),
{
    let n: usize = of.len();
    let mut out: KeySet<Id> = KeySet::new();
    let mut i: usize = 0;
    while i < n
        invariant
            i <= n,
            n == of.members().len(),
            forall|k: Id| #[trigger]
                out@.contains(k) <==> inner@.clients.dom().contains(k) && exists|j: int|
                    0 <= j < i && #[trigger] of.members()[j] == k,
        decreases n - i,
    {
        let k = *of.member(i);
        let ghost before = out@;
        if inner.clients.contains_key(&k) {
            out.insert(k);
        }
        proof {
            assert forall|q: Id| #[trigger] out@.contains(q) <==> inner@.clients.dom().contains(q)
                && exists|j: int| 0 <= j < i + 1 && #[trigger] of.members()[j] == q by {
                if before.contains(q) {
                    let j = choose|j: int| 0 <= j < i && #[trigger] of.members()[j] == q;
                    assert(0 <= j < i + 1);
                }
                assert(of.members()[i as int] == k);
            }
        }
        i += 1;
    }
    assert(out@ =~= of@.intersect(inner@.clients.dom())) by {
        assert forall|q: Id| out@.contains(q) <==> of@.contains(q) && inner@.clients.dom().contains(
            q,
        ) by {
            if of@.contains(q) {
                let j = choose|j: int| 0 <= j < n && #[trigger] of.members()[j] == q;
                assert(of.members()[j] == q);
            }
        }
    }
    out
}

fn floor_holder(inner: &Inner, policy: &RoutingPolicy, id: Id, gssi: u32) -> (r: Option<Id>)
    ensures
        r == floor_rival(inner@, *policy, id, gssi),
{
    if policy.allow_multiple_calls_per_group {
        return None;
    }
    match inner.group_floor.get(&gssi) {
        Some(holder) => {
            let h: Id = *holder;
            if h != id && inner.calls.contains_key(&h) {
                Some(h)
            } else {
                None
            }
        },
        None => None,
    }
}

fn group_call_targets(inner: &Inner, policy: &RoutingPolicy, gssi: u32) -> (r: KeySet<Id>)
    ensures
        r@ == group_targets(inner@, *policy, gssi),
{
    if policy.route_without_affiliations {
        return inner.clients.keys();
    }
    let targets = match inner.group_clients.get(&gssi) {
        Some(s) => s.duplicate(),
        None => KeySet::new(),
    };
    if targets.is_empty() && policy.fallback_broadcast_when_no_affiliations {
        return inner.clients.keys();
    }
    targets
}

/// Routes a group transmission. `now` is a monotonic clock reading in nanoseconds.
pub fn handle_group_tx(
    inner: &mut Inner,
    policy: &RoutingPolicy,
    now: u64,
    client: ClientId,
    id: Id,
    source: u32,
    gssi: u32,
    priority: u8,
    raw: &[u8],
) -> (r: Routed)
    ensures
        (Step { world: final(inner)@, out: r@ }) == group_tx_step(
            old(inner)@,
            *policy,
            now,
            client,
            id,
            source,
            gssi,
            priority,
            raw@,
        ),
{
    let ghost w = inner@;
    let ghost want = group_tx_step(w, *policy, now, client, id, source, gssi, priority, raw@);
    let mut out = nothing();
    let rival = floor_holder(inner, policy, id, gssi);
    match rival {
        Some(old_id) => {
            match inner.calls.get(&old_id) {
                Some(existing) => {
                    let wins = if policy.higher_priority_number_wins {
                        priority > existing.priority
                    } else {
                        priority < existing.priority
                    };
                    if !wins {
                        return out;
                    }
                    let release = build_call_cause(CALL_GROUP_IDLE, &old_id, policy.preempt_cause);
                    let mut notify = existing.peers.duplicate();
                    notify.insert(existing.owner);
                    let live = connected(inner, &notify);
                    push_batch(&mut out, live, release.as_slice());
                },
                None => {},
            }
            inner.calls.remove(&old_id);
        },
        None => {},
    }
    let ghost released = out@.sent;
    let mut targets = group_call_targets(inner, policy, gssi);
    targets.remove(&client);
    let live = connected(inner, &targets);
    inner.group_floor.insert(gssi, id);
    let call = ActiveCall {
        kind: CallKind::Group,
        owner: client,
        source_issi: source,
        destination: gssi,
        priority,
        peers: targets,
        started_at: now,
    };
    inner.calls.insert(id, call);
    push_batch(&mut out, live, raw);
    push_event(
        &mut out,
        Event::CallStarted { id, kind: CallKind::Group, source, destination: gssi, priority },
    );
    assert(out@.events =~= want.out.events);
    assert(out@.sent =~= want.out.sent);
    assert(inner@.calls =~= want.world.calls);
    out
}

/// Routes a short-data header. `now` is a monotonic clock reading in
/// nanoseconds.
pub fn handle_sds_header(
    inner: &mut Inner,
    now: u64,
    client: ClientId,
    id: Id,
    source_issi: u32,
    destination: u32,
    raw: &[u8],
) -> (r: Routed)
    ensures
        (Step { world: final(inner)@, out: r@ }) == sds_header_step(
            old(inner)@,
            now,
            client,
            id,
            source_issi,
            destination,
            raw@,
        ),
{
    let ghost w = inner@;
    let ghost want = sds_header_step(w, now, client, id, source_issi, destination, raw@);
    let mut out = nothing();
    let mut targets: KeySet<Id> = KeySet::new();
    match inner.subscribers.get(&destination) {
        Some(sub) => {
            targets.insert(sub.client_id);
        },
        None => {},
    }
    match inner.group_clients.get(&destination) {
        Some(group) => {
            targets.extend(group);
        },
        None => {},
    }
    assert(targets@ =~= sds_targets(w, destination));
    targets.remove(&client);
    if targets.is_empty() {
        return out;
    }
    let live = connected(inner, &targets);
    inner.sds_routes.insert(
        id,
        SdsRoute { source_client: client, targets, source_issi, destination, created_at: now },
    );
    push_batch(&mut out, live, raw);
    push_event(&mut out, Event::Sds { id, source: source_issi, destination });
    assert(out@.events =~= want.out.events);
    assert(out@.sent =~= want.out.sent);
    out
}

/// Looks for a position in the body of a short-data message.
pub fn tell_position(out: &mut Routed, issi: u32, body: &[u8])
    ensures
        final(out)@.events == old(out)@.events + told_position(issi, body@),
        final(out)@.sent == old(out)@.sent,
{
    match find_report(body) {
        Some(fix) => {
            push_event(out, Event::Position { issi, fix });
            assert(out@.events =~= old(out)@.events + told_position(issi, body@));
        },
        None => {
            let text = ascii_text(body);
            let found = parse_position(&text);
            assert(position::candidate_models(found@).len() == found@.len());
            if found.len() > 0 {
                push_event(out, Event::Beacon { issi, text });
                assert(out@.events =~= old(out)@.events + told_position(issi, body@));
            } else {
                assert(out@.events =~= old(out)@.events + told_position(issi, body@));
            }
        },
    }
}

/// Routes the body of a short-data message.
pub fn handle_sds_transfer(inner: &Inner, client: ClientId, id: Id, raw: &[u8]) -> (r: Routed)
    ensures
        r@ == sds_transfer_out(inner@, client, id, raw@),
{
    let mut out = nothing();
    match inner.sds_routes.get(&id) {
        Some(route) => {
            if route.source_client == client {
                let live = connected(inner, &route.targets);
                push_batch(&mut out, live, raw);
                if raw.len() >= 20 {
                    tell_position(&mut out, route.source_issi, slice_subrange(raw, 20, raw.len()));
                } else {
                    tell_position(&mut out, route.source_issi, slice_subrange(raw, 0, 0));
                    assert(raw@.subrange(0, 0) =~= frame_body(raw@));
                }
                assert(out@.sent =~= sds_transfer_out(inner@, client, id, raw@).sent);
                assert(out@.events =~= sds_transfer_out(inner@, client, id, raw@).events);
            }
        },
        None => {},
    }
    out
}

/// Routes a short-data report.
pub fn handle_sds_report(inner: &mut Inner, client: ClientId, id: Id, raw: &[u8]) -> (r: Routed)
    ensures
        (Step { world: final(inner)@, out: r@ }) == sds_report_step(
            old(inner)@,
            client,
            id,
            raw@,
        ),
{
    let ghost want = sds_report_step(inner@, client, id, raw@);
    let mut out = nothing();
    let mut single = false;
    match inner.sds_routes.get(&id) {
        Some(route) => {
            if !route.targets.contains(&client) {
                return out;
            }
            single = route.targets.len() == 1;
            let mut back: KeySet<Id> = KeySet::new();
            back.insert(route.source_client);
            let live = connected(inner, &back);
            push_batch(&mut out, live, raw);
        },
        None => {
            return out;
        },
    }
    if single {
        inner.sds_routes.remove(&id);
    }
    push_event(&mut out, Event::SdsReport { id });
    assert(out@.events =~= want.out.events);
    assert(out@.sent =~= want.out.sent);
    out
}

/// Routes a private call set-up. `now` is a monotonic clock reading in nanoseconds.
pub fn handle_private_setup(
    inner: &mut Inner,
    now: u64,
    client: ClientId,
    id: Id,
    payload: &CallPayload,
    raw: &[u8],
) -> (r: Routed)
    ensures
        (Step { world: final(inner)@, out: r@ }) == private_setup_step(
            old(inner)@,
            now,
            client,
            id,
            payload@,
            raw@,
        ),
{
    let ghost want = private_setup_step(inner@, now, client, id, payload@, raw@);
    let mut out = nothing();
    let (source_issi, destination, dialled): (u32, u32, String) = match payload {
        CallPayload::CircularCall(c) => {
            if c.number.as_str().is_empty() {
                (c.source, c.destination, decimal_text(c.destination as u64))
            } else {
                (c.source, c.destination, c.number.clone())
            }
        },
        other => match raw_peer_pair(other) {
            Some((s, d)) => (s, d, decimal_text(d as u64)),
            None => {
                return out;
            },
        },
    };
    let target: Id = match inner.subscribers.get(&destination) {
        Some(s) => s.client_id,
        None => {
            push_event(&mut out, Event::OfferSip { id, client, issi: source_issi, dialled });
            assert(out@.events =~= want.out.events);
            assert(out@.sent =~= want.out.sent);
            return out;
        },
    };
    if target == client {
        return out;
    }
    let mut peers: KeySet<Id> = KeySet::new();
    peers.insert(target);
    let live = connected(inner, &peers);
    inner.calls.insert(
        id,
        ActiveCall {
            kind: CallKind::Private,
            owner: client,
            source_issi,
            destination,
            priority: 0,
            peers,
            started_at: now,
        },
    );
    push_batch(&mut out, live, raw);
    push_event(
        &mut out,
        Event::CallStarted {
            id,
            kind: CallKind::Private,
            source: source_issi,
            destination,
            priority: 0,
        },
    );
    assert(out@.events =~= want.out.events);
    assert(out@.sent =~= want.out.sent);
    out
}

/// Routes call control within a private call.
pub fn route_private_control(inner: &Inner, client: ClientId, id: Id, raw: &[u8]) -> (r: Routed)
    ensures
        r@ == private_control_out(inner@, client, id, raw@),
{
    let mut out = nothing();
    match inner.calls.get(&id) {
        Some(call) => {
            if call.kind == CallKind::Private {
                let mut recipients = call.peers.duplicate();
                recipients.insert(call.owner);
                recipients.remove(&client);
                let live = connected(inner, &recipients);
                push_batch(&mut out, live, raw);
                assert(out@.sent =~= private_control_out(inner@, client, id, raw@).sent);
            }
        },
        None => {},
    }
    out
}

/// Routes a voice frame.
pub fn route_call_frame(inner: &Inner, client: ClientId, id: Id, raw: &[u8]) -> (r: Routed)
    ensures
        r@ == call_frame_out(inner@, client, id, raw@),
{
    let mut out = nothing();
    match inner.calls.get(&id) {
        Some(call) => {
            let allowed = match call.kind {
                CallKind::Group => call.owner == client,
                CallKind::Private => call.peers.contains(&client) || call.owner == client,
            };
            if allowed {
                let mut recipients = call.peers.duplicate();
                if call.kind == CallKind::Private {
                    recipients.insert(call.owner);
                }
                recipients.remove(&client);
                let live = connected(inner, &recipients);
                push_event(&mut out, Event::VoiceFrame { id });
                push_batch(&mut out, live, raw);
                assert(out@.sent =~= call_frame_out(inner@, client, id, raw@).sent);
                assert(out@.events =~= call_frame_out(inner@, client, id, raw@).events);
            }
        },
        None => {},
    }
    out
}

/// Ends a call that has lasted longer than allowed.
pub fn force_end(inner: &mut Inner, id: Id) -> (r: Routed)
    ensures
        (Step { world: final(inner)@, out: r@ }) == force_end_step(old(inner)@, id),
{
    let ghost want = force_end_step(inner@, id);
    let mut out = nothing();
    let mut freed: Option<u32> = None;
    match inner.calls.get(&id) {
        Some(call) => {
            let mut all = call.peers.duplicate();
            all.insert(call.owner);
            let live = connected(inner, &all);
            if call.kind == CallKind::Group {
                let holds = match inner.group_floor.get(&call.destination) {
                    Some(h) => *h == id,
                    None => false,
                };
                if holds {
                    freed = Some(call.destination);
                }
                let packet = build_call_cause(CALL_GROUP_IDLE, &id, 0);
                push_batch(&mut out, live, packet.as_slice());
            } else {
                let packet = build_call_cause(CALL_RELEASE, &id, 0);
                push_batch(&mut out, live, packet.as_slice());
            }
        },
        None => {
            return out;
        },
    }
    inner.calls.remove(&id);
    match freed {
        Some(gssi) => {
            inner.group_floor.remove(&gssi);
        },
        None => {},
    }
    push_event(&mut out, Event::CallEnded { id });
    assert(out@.events =~= want.out.events);
    assert(out@.sent =~= want.out.sent);
    out
}

/// Ends a call.
pub fn end_call(inner: &mut Inner, client: ClientId, id: Id, raw: &[u8]) -> (r: Routed)
    ensures
        (Step { world: final(inner)@, out: r@ }) == end_call_step(old(inner)@, client, id, raw@),
{
    let ghost w = inner@;
    let ghost want = end_call_step(w, client, id, raw@);
    let mut out = nothing();
    let mut freed: Option<u32> = None;
    match inner.calls.get(&id) {
        Some(call) => {
            let participant = call.owner == client || call.peers.contains(&client);
            if !participant {
                return out;
            }
            if call.kind == CallKind::Group && call.owner != client {
                return out;
            }
            if call.kind == CallKind::Group {
                let holds = match inner.group_floor.get(&call.destination) {
                    Some(h) => *h == id,
                    None => false,
                };
                if holds {
                    freed = Some(call.destination);
                }
            }
            let mut recipients = call.peers.duplicate();
            if call.kind == CallKind::Private {
                recipients.insert(call.owner);
            }
            recipients.remove(&client);
            let live = connected(inner, &recipients);
            push_batch(&mut out, live, raw);
        },
        None => {
            return out;
        },
    }
    inner.calls.remove(&id);
    match freed {
        Some(gssi) => {
            inner.group_floor.remove(&gssi);
        },
        None => {},
    }
    push_event(&mut out, Event::CallEnded { id });
    assert(out@.events =~= want.out.events);
    assert(out@.sent =~= want.out.sent);
    out
}

/// The numbers in a list, as a set.
fn group_set(v: &Vec<u32>) -> (r: KeySet<u32>)
    ensures
        r@ == v@.to_set(),
{
    let mut out: KeySet<u32> = KeySet::new();
    let mut i: usize = 0;
    assert(v@.subrange(0, 0).to_set() =~= Set::<u32>::empty());
    while i < v.len()
        invariant
            i <= v@.len(),
            out@ == v@.subrange(0, i as int).to_set(),
        decreases v@.len() - i,
    {
        out.insert(v[i]);
        proof {
            let a = v@.subrange(0, i as int);
            let b = v@.subrange(0, i + 1);
            assert(b =~= a.push(v@[i as int]));
            assert forall|x: u32| b.contains(x) <==> a.contains(x) || x == v@[i as int] by {
                if a.contains(x) {
                    let j = choose|j: int| 0 <= j < a.len() && a[j] == x;
                    assert(b[j] == x);
                }
                assert(b[i as int] == v@[i as int]);
            }
            assert(out@ =~= b.to_set());
        }
        i += 1;
    }
    assert(v@.subrange(0, i as int) =~= v@);
    out
}

/// The part of a set of members that has been gone through.
spec fn seen<A>(members: Seq<A>, i: int) -> Set<A> {
    members.subrange(0, i).to_set()
}

proof fn seen_next<A>(members: Seq<A>, i: int)
    requires
        0 <= i < members.len(),
    ensures
        seen(members, i + 1) == seen(members, i).insert(members[i]),
{
    let a = members.subrange(0, i);
    let b = members.subrange(0, i + 1);
    assert forall|x: A| b.contains(x) <==> a.contains(x) || x == members[i] by {
        if a.contains(x) {
            let j = choose|j: int| 0 <= j < a.len() && a[j] == x;
            assert(b[j] == x);
        }
        assert(b[i] == members[i]);
    }
    assert(b.to_set() =~= a.to_set().insert(members[i]));
}

proof fn seen_all<A>(members: Seq<A>)
    ensures
        seen(members, members.len() as int) == members.to_set(),
        seen(members, 0) == Set::<A>::empty(),
{
    assert(members.subrange(0, members.len() as int) =~= members);
    assert(members.subrange(0, 0).to_set() =~= Set::<A>::empty());
}

/// Replaces one client by another in some groups.
fn replace_in_groups(inner: &mut Inner, groups: &KeySet<u32>, from: Id, to: Id)
    ensures
        final(inner)@ == (World {
            group_clients: old(inner)@.group_clients.map_entries(
                |g: u32, s: Set<Id>|
                    if groups@.contains(g) {
                        s.remove(from).insert(to)
                    } else {
                        s
                    },
            ),
            ..old(inner)@
        }),
{
    let ghost whole = inner@.group_clients;
    let n: usize = groups.len();
    let mut i: usize = 0;
    proof {
        seen_all(groups.members());
    }
    while i < n
        invariant
            i <= n,
            n == groups.members().len(),
            groups.members().no_duplicates(),
            inner@ == (World { group_clients: inner@.group_clients, ..old(inner)@ }),
            inner@.group_clients.dom() == whole.dom(),
            forall|g: u32| #[trigger]
                inner@.group_clients.dom().contains(g) ==> inner@.group_clients[g] == (if seen(
                    groups.members(),
                    i as int,
                ).contains(g) {
                    whole[g].remove(from).insert(to)
                } else {
                    whole[g]
                }),
        decreases n - i,
    {
        let g: u32 = *groups.member(i);
        proof {
            seen_next(groups.members(), i as int);
            assert(!seen(groups.members(), i as int).contains(g)) by {
                let a = groups.members().subrange(0, i as int);
                if a.contains(g) {
                    let j = choose|j: int| 0 <= j < a.len() && a[j] == g;
                    assert(groups.members()[j] == groups.members()[i as int]);
                }
            }
        }
        let ghost before = inner@.group_clients;
        match inner.group_clients.remove(&g) {
            Some(s) => {
                let mut s = s;
                s.remove(&from);
                s.insert(to);
                inner.group_clients.insert(g, s);
                assert(inner@.group_clients.dom() =~= before.dom());
            },
            None => {
                assert(inner@.group_clients.dom() =~= before.dom());
            },
        }
        i += 1;
    }
    proof {
        seen_all(groups.members());
        assert(inner@.group_clients =~= whole.map_entries(
            |g: u32, s: Set<Id>|
                if groups@.contains(g) {
                    s.remove(from).insert(to)
                } else {
                    s
                },
        ));
    }
}

/// Whether some subscriber registered through a client is in a group.
fn still_present(inner: &Inner, client: Id, gssi: u32) -> (r: bool)
    ensures
        r == in_group_through(inner@.subscribers, client, gssi),
{
    let n: usize = inner.subscribers.len();
    let mut i: usize = 0;
    while i < n
        invariant
            i <= n,
            n == inner.subscribers.entries().len(),
            forall|j: int|
                0 <= j < i ==> !((#[trigger] inner.subscribers.entries()[j]).1.client_id == client
                    && inner.subscribers.entries()[j].1.groups.contains(gssi)),
        decreases n - i,
    {
        let (k, v) = inner.subscribers.entry(i);
        if v.client_id == client && v.groups.contains(&gssi) {
            assert(inner@.subscribers.dom().contains(k@));
            return true;
        }
        i += 1;
    }
    proof {
        assert(inner@.subscribers == inner.subscribers@);
        if in_group_through(inner@.subscribers, client, gssi) {
            let k = choose|k: u32| #[trigger]
                inner@.subscribers.dom().contains(k) && inner@.subscribers[k].client_id == client
                    && inner@.subscribers[k].groups.contains(gssi);
            assert(inner.subscribers@.dom().contains(k));
            let j = choose|j: int|
                0 <= j < n && (#[trigger] inner.subscribers.entries()[j]).0 == k;
            assert(inner.subscribers.entries()[j].1 == inner.subscribers@[k]);
        }
    }
    false
}

/// Gives up a client's place in the groups that none of its subscribers is in.
fn withdraw_from(inner: &mut Inner, client: Id, groups: &KeySet<u32>)
    ensures
        final(inner)@ == (World {
            group_clients: withdraw(
                old(inner)@.group_clients,
                old(inner)@.subscribers,
                client,
                groups@,
            ),
            ..old(inner)@
        }),
{
    let ghost whole = inner@.group_clients;
    let ghost subs = inner@.subscribers;
    let n: usize = groups.len();
    let mut i: usize = 0;
    proof {
        seen_all(groups.members());
    }
    while i < n
        invariant
            i <= n,
            n == groups.members().len(),
            subs == old(inner)@.subscribers,
            inner@ == (World { group_clients: inner@.group_clients, ..old(inner)@ }),
            inner@.group_clients.dom() == whole.dom(),
            forall|g: u32| #[trigger]
                inner@.group_clients.dom().contains(g) ==> inner@.group_clients[g] == (if seen(
                    groups.members(),
                    i as int,
                ).contains(g) && !in_group_through(subs, client, g) {
                    whole[g].remove(client)
                } else {
                    whole[g]
                }),
        decreases n - i,
    {
        let g: u32 = *groups.member(i);
        proof {
            seen_next(groups.members(), i as int);
        }
        let ghost before = inner@.group_clients;
        if !still_present(inner, client, g) {
            match inner.group_clients.remove(&g) {
                Some(s) => {
                    let mut s = s;
                    s.remove(&client);
                    assert(whole[g].remove(client).remove(client) =~= whole[g].remove(client));
                    inner.group_clients.insert(g, s);
                    assert(inner@.group_clients.dom() =~= before.dom());
                },
                None => {
                    assert(inner@.group_clients.dom() =~= before.dom());
                },
            }
        }
        i += 1;
    }
    proof {
        seen_all(groups.members());
        assert(inner@.group_clients =~= withdraw(whole, subs, client, groups@));
    }
}

/// Puts a client into groups.
fn join_groups(inner: &mut Inner, client: Id, groups: &KeySet<u32>)
    ensures
        final(inner)@ == (World {
            group_clients: joined(old(inner)@.group_clients, client, groups@),
            ..old(inner)@
        }),
{
    let ghost whole = inner@.group_clients;
    let n: usize = groups.len();
    let mut i: usize = 0;
    proof {
        seen_all(groups.members());
        assert(joined(whole, client, Set::empty()) =~= whole);
    }
    while i < n
        invariant
            i <= n,
            n == groups.members().len(),
            inner@ == (World {
                group_clients: joined(whole, client, seen(groups.members(), i as int)),
                ..old(inner)@
            }),
        decreases n - i,
    {
        let g: u32 = *groups.member(i);
        proof {
            seen_next(groups.members(), i as int);
        }
        let ghost before = inner@.group_clients;
        let mut s = match inner.group_clients.remove(&g) {
            Some(s) => s,
            None => KeySet::new(),
        };
        s.insert(client);
        inner.group_clients.insert(g, s);
        proof {
            let a = seen(groups.members(), i as int);
            let b = seen(groups.members(), i + 1);
            let m = joined(whole, client, b);
            assert(inner@.group_clients =~= m) by {
                assert forall|q: u32| #[trigger] m.dom().contains(q) implies m[q]
                    == inner@.group_clients[q] by {
                    if q == g {
                        if a.contains(g) {
                            assert(before[g].insert(client) =~= before[g]);
                        }
                    }
                }
            }
        }
        i += 1;
    }
    proof {
        seen_all(groups.members());
    }
}

/// The subscriber's groups become the given ones.
fn set_groups(inner: &mut Inner, issi: u32, client: Id, mode: ClientMode, groups: KeySet<u32>)
    ensures
        final(inner)@ == (World {
            subscribers: old(inner)@.subscribers.insert(
                issi,
                SubscriberModel { client_id: client, groups: groups@, mode },
            ),
            ..old(inner)@
        }),
{
    inner.subscribers.insert(issi, Subscriber { client_id: client, groups, mode });
}

fn relay_to_peers(inner: &Inner, client: Id, raw: &[u8]) -> (r: Routed)
    ensures
        r@ == relay(inner@, client, raw@),
{
    let mut out = nothing();
    let mut peers = inner.clients_with_mode(ClientMode::Peer);
    peers.remove(&client);
    push_batch(&mut out, peers, raw);
    assert(out@.sent =~= relay(inner@, client, raw@).sent);
    out
}

fn note_registration(out: &mut Routed, mode: ClientMode, issi: u32, kind: RegKind)
    ensures
        final(out)@.sent == old(out)@.sent,
        final(out)@.events == (if mode == ClientMode::Terminal {
            old(out)@.events.push(EventModel::Registration { issi, kind })
        } else {
            old(out)@.events
        }),
{
    if mode == ClientMode::Terminal {
        push_event(out, Event::Registration { issi, kind });
    }
}

/// Learns from a subscriber message.
pub fn handle_subscriber(
    inner: &mut Inner,
    client: ClientId,
    msg: &SubscriberMessage,
    raw: &[u8],
) -> (r: Routed)
    ensures
        (Step { world: final(inner)@, out: r@ }) == subscriber_step(
            old(inner)@,
            client,
            msg.msg_type,
            msg.issi,
            msg.groups@.to_set(),
            raw@,
        ),
{
    let ghost w = inner@;
    let issi: u32 = msg.issi;
    let mode = inner.client_mode(client);
    let mut relayed = relay_to_peers(inner, client, raw);
    let (known, owner, owner_mode, groups): (bool, Id, ClientMode, KeySet<u32>) =
        match inner.subscribers.get(&issi) {
        Some(s) => (true, s.client_id, s.mode, s.groups.duplicate()),
        None => (false, client, mode, KeySet::new()),
    };
    if msg.msg_type == SUB_REGISTER || msg.msg_type == SUB_REREGISTER {
        if known && owner != client {
            replace_in_groups(inner, &groups, owner, client);
            assert(inner@.group_clients =~= register_world(w, client, issi).group_clients);
        }
        set_groups(inner, issi, client, mode, groups);
        note_registration(&mut relayed, mode, issi, RegKind::Register);
        assert(relayed@ =~= relay_noted(w, client, issi, RegKind::Register, raw@));
        return relayed;
    }
    if msg.msg_type == SUB_DEREGISTER {
        if !(known && owner == client) {
            return nothing();
        }
        inner.subscribers.remove(&issi);
        withdraw_from(inner, client, &groups);
        note_registration(&mut relayed, mode, issi, RegKind::Deregister);
        assert(relayed@ =~= relay_noted(w, client, issi, RegKind::Deregister, raw@));
        return relayed;
    }
    let listed = group_set(&msg.groups);
    if msg.msg_type == SUB_AFFILIATE {
        if known && owner != client {
            return nothing();
        }
        let mut all = groups;
        all.extend(&listed);
        set_groups(inner, issi, owner, owner_mode, all);
        join_groups(inner, client, &listed);
        return relayed;
    }
    if msg.msg_type == SUB_DEAFFILIATE {
        if !(known && owner == client) {
            return nothing();
        }
        let rest = without(&groups, &listed);
        set_groups(inner, issi, owner, owner_mode, rest);
        withdraw_from(inner, client, &listed);
        return relayed;
    }
    nothing()
}

/// The members of one set that are not in another.
fn without(a: &KeySet<u32>, b: &KeySet<u32>) -> (r: KeySet<u32>)
    ensures
        r@ == a@.difference(b@),
{
    let mut out = a.duplicate();
    let n: usize = b.len();
    let mut i: usize = 0;
    proof {
        seen_all(b.members());
        assert(a@.difference(Set::<u32>::empty()) =~= a@);
    }
    while i < n
        invariant
            i <= n,
            n == b.members().len(),
            out@ == a@.difference(seen(b.members(), i as int)),
        decreases n - i,
    {
        let g: u32 = *b.member(i);
        proof {
            seen_next(b.members(), i as int);
        }
        out.remove(&g);
        assert(out@ =~= a@.difference(seen(b.members(), i + 1)));
        i += 1;
    }
    proof {
        seen_all(b.members());
    }
    out
}

/// Routes one packet from a client. `now` is a monotonic clock reading in
/// nanoseconds.
pub fn handle_packet(
    inner: &mut Inner,
    policy: &RoutingPolicy,
    now: u64,
    client: ClientId,
    raw: &[u8],
) -> (r: Routed)
    ensures
        (Step { world: final(inner)@, out: r@ }) == packet_step(
            old(inner)@,
            *policy,
            now,
            client,
            raw@,
        ),
{
    inner.purge_ephemeral(now, policy.session_ttl_seconds);
    let version = inner.client_version(client);
    let (message, detected) = match parse_with_version(raw, version) {
        Ok(v) => v,
        Err(_) => {
            return nothing();
        },
    };
    inner.promote_client_version(client, detected);
    match message {
        BrewMessage::Subscriber(msg) => handle_subscriber(inner, client, &msg, raw),
        BrewMessage::CallControl(cc) => {
            let id = cc.identifier;
            match &cc.payload {
                CallPayload::GroupTransmission(gt) => handle_group_tx(
                    inner,
                    policy,
                    now,
                    client,
                    id,
                    gt.source,
                    gt.destination,
                    gt.priority,
                    raw,
                ),
                CallPayload::ShortTransfer { source, destination } => handle_sds_header(
                    inner,
                    now,
                    client,
                    id,
                    *source,
                    *destination,
                    raw,
                ),
                payload => {
                    let state: u8 = cc.call_state;
                    if state == CALL_SETUP_REQUEST {
                        handle_private_setup(inner, now, client, id, payload, raw)
                    } else if state == CALL_SETUP_ACCEPT || state == CALL_SETUP_REJECT || state
                        == CALL_ALERT || state == CALL_CONNECT_REQUEST || state
                        == CALL_CONNECT_CONFIRM || state == CALL_SIMPLEX_GRANTED || state
                        == CALL_SIMPLEX_IDLE {
                        route_private_control(inner, client, id, raw)
                    } else if state == CALL_GROUP_IDLE || state == CALL_RELEASE {
                        end_call(inner, client, id, raw)
                    } else {
                        nothing()
                    }
                },
            }
        },
        BrewMessage::Frame(frame) => {
            if frame.frame_type == FRAME_SDS_TRANSFER {
                handle_sds_transfer(inner, client, frame.identifier, raw)
            } else if frame.frame_type == FRAME_SDS_REPORT {
                handle_sds_report(inner, client, frame.identifier, raw)
            } else if frame.frame_type == FRAME_TRAFFIC_CHANNEL {
                route_call_frame(inner, client, frame.identifier, raw)
            } else {
                nothing()
            }
        },
        BrewMessage::Service(_) => nothing(),
        BrewMessage::Error(_) => nothing(),
    }
}

/// No short-data transaction has its own sender among its targets.
pub open spec fn sds_senders_apart(w: World) -> bool {
    forall|id: Id| #[trigger]
        w.sds_routes.dom().contains(id) ==> !w.sds_routes[id].targets.contains(
            w.sds_routes[id].source_client,
        )
}

/// Routing keeps the senders of short-data transactions out of their targets,
/// and so do clients that leave.
pub proof fn sds_senders_stay_apart(w: World, p: RoutingPolicy, now: u64, client: Id, raw: Seq<u8>)
    requires
        sds_senders_apart(w),
    ensures
        sds_senders_apart(packet_step(w, p, now, client, raw).world),
        sds_senders_apart(w.without_client(client)),
        sds_senders_apart(World::nothing()),
{
    let after = packet_step(w, p, now, client, raw).world;
    assert forall|id: Id| #[trigger] after.sds_routes.dom().contains(
        id,
    ) implies !after.sds_routes[id].targets.contains(after.sds_routes[id].source_client) by {
        if w.sds_routes.dom().contains(id) {
            assert(!w.sds_routes[id].targets.contains(w.sds_routes[id].source_client));
        }
    }
}

/// A packet is never handed back to the client that it came from: it goes out
/// in at most one batch, the last, and that batch leaves the client out. Any
/// batch before it releases a displaced call.
pub proof fn packets_are_not_echoed(w: World, p: RoutingPolicy, now: u64, client: Id, raw: Seq<u8>)
    requires
        sds_senders_apart(w),
    ensures
        ({
            let sent = packet_step(w, p, now, client, raw).out.sent;
            &&& sent.len() <= 2
            &&& sent.len() > 0 ==> sent.last().packet == raw && !sent.last().to.contains(client)
            &&& sent.len() == 2 ==> exists|old: Id|
                #![trigger w.calls.dom().contains(old)]
                w.calls.dom().contains(old) && sent[0].packet == protocol::call_cause_packet(
                    CALL_GROUP_IDLE,
                    old,
                    p.preempt_cause,
                )
        }),
{
    let w1 = w.purged(now, p.session_ttl_seconds);
    match protocol::parsed(raw, w1.version_of(client)) {
        Err(_) => {},
        Ok((m, seen)) => {
            let w2 = w1.promote(client, seen);
            match m {
                MessageModel::CallControl { identifier, payload, .. } => match payload {
                    PayloadModel::GroupTransmission { destination, .. } => {
                        let rival = floor_rival(w2, p, identifier, destination);
                        if rival is Some {
                            assert(w.calls.dom().contains(rival->0));
                        }
                    },
                    _ => {},
                },
                _ => {},
            }
        },
    }
}

/// Only connected clients are sent anything.
pub proof fn only_connected_clients_receive(
    w: World,
    p: RoutingPolicy,
    now: u64,
    client: Id,
    raw: Seq<u8>,
)
    ensures
        forall|i: int, c: Id|
            #![trigger packet_step(w, p, now, client, raw).out.sent[i].to.contains(c)]
            0 <= i < packet_step(w, p, now, client, raw).out.sent.len() && packet_step(
                w,
                p,
                now,
                client,
                raw,
            ).out.sent[i].to.contains(c) ==> w.clients.dom().contains(c),
{
    let w1 = w.purged(now, p.session_ttl_seconds);
    match protocol::parsed(raw, w1.version_of(client)) {
        Err(_) => {},
        Ok((m, seen)) => {
            let w2 = w1.promote(client, seen);
            assert(w2.clients.dom() =~= w.clients.dom());
        },
    }
}

/// A malformed packet only makes the server drop what has expired.
pub proof fn malformed_packets_do_nothing(
    w: World,
    p: RoutingPolicy,
    now: u64,
    client: Id,
    raw: Seq<u8>,
)
    requires
        protocol::parsed(raw, w.version_of(client)) is Err,
    ensures
        packet_step(w, p, now, client, raw) == (Step {
            world: w.purged(now, p.session_ttl_seconds),
            out: silent(),
        }),
{
}

/// While a call holds the floor, an attempt of equal or lower priority changes
/// nothing and reaches nobody.
pub proof fn floor_resists_equal_priority(
    w: World,
    p: RoutingPolicy,
    now: u64,
    client: Id,
    id: Id,
    source: u32,
    gssi: u32,
    priority: u8,
    raw: Seq<u8>,
)
    requires
        !p.allow_multiple_calls_per_group,
        w.group_floor.dom().contains(gssi),
        w.group_floor[gssi] != id,
        w.calls.dom().contains(w.group_floor[gssi]),
        p.higher_priority_number_wins ==> priority <= w.calls[w.group_floor[gssi]].priority,
        !p.higher_priority_number_wins ==> priority >= w.calls[w.group_floor[gssi]].priority,
    ensures
        group_tx_step(w, p, now, client, id, source, gssi, priority, raw) == (Step {
            world: w,
            out: silent(),
        }),
{
}

/// An attempt of higher priority displaces the call that holds the floor: all
/// its connected participants are told with the configured cause, the call is
/// forgotten, and the new call holds the floor.
pub proof fn higher_priority_preempts(
    w: World,
    p: RoutingPolicy,
    now: u64,
    client: Id,
    id: Id,
    source: u32,
    gssi: u32,
    priority: u8,
    raw: Seq<u8>,
)
    requires
        !p.allow_multiple_calls_per_group,
        w.group_floor.dom().contains(gssi),
        w.group_floor[gssi] != id,
        w.calls.dom().contains(w.group_floor[gssi]),
        p.higher_priority_number_wins ==> priority > w.calls[w.group_floor[gssi]].priority,
        !p.higher_priority_number_wins ==> priority < w.calls[w.group_floor[gssi]].priority,
    ensures
        ({
            let old = w.group_floor[gssi];
            let s = group_tx_step(w, p, now, client, id, source, gssi, priority, raw);
            &&& s.out.sent.len() == 2
            &&& s.out.sent[0].packet == protocol::call_cause_packet(CALL_GROUP_IDLE, old, p.preempt_cause)
            &&& forall|c: Id| #[trigger]
                s.out.sent[0].to.contains(c) <==> w.calls[old].involves(c)
                    && w.clients.dom().contains(c)
            &&& !s.world.calls.dom().contains(old)
            &&& s.world.calls.dom().contains(id)
            &&& s.world.calls[id].owner == client
            &&& s.world.group_floor[gssi] == id
        }),
{
}

/// Every floor is held by a known group call to that group.
pub open spec fn floors_held(w: World) -> bool {
    forall|g: u32| #[trigger]
        w.group_floor.dom().contains(g) ==> {
            &&& w.calls.dom().contains(w.group_floor[g])
            &&& w.calls[w.group_floor[g]].kind == CallKind::Group
            &&& w.calls[w.group_floor[g]].destination == g
        }
}

/// Whether a message that sets up a call uses an identifier that is free, or
/// that of a group call to the same group.
pub open spec fn call_id_free(w: World, m: MessageModel) -> bool {
    match m {
        MessageModel::CallControl { call_state, identifier, payload } => match payload {
            PayloadModel::GroupTransmission { destination, .. } => {
                ||| !w.calls.dom().contains(identifier)
                ||| (w.calls[identifier].kind == CallKind::Group && w.calls[identifier].destination
                    == destination)
            },
            _ => call_state == CALL_SETUP_REQUEST ==> !w.calls.dom().contains(identifier),
        },
        _ => true,
    }
}

/// A message keeps every floor held by a known group call to that group, as
/// long as call identifiers are not reused for other calls.
pub proof fn floors_stay_held(
    w: World,
    p: RoutingPolicy,
    now: u64,
    client: Id,
    m: MessageModel,
    raw: Seq<u8>,
)
    requires
        floors_held(w),
        call_id_free(w, m),
    ensures
        floors_held(message_step(w, p, now, client, m, raw).world),
{
    let after = message_step(w, p, now, client, m, raw).world;
    assert forall|g: u32| #[trigger] after.group_floor.dom().contains(g) implies {
        &&& after.calls.dom().contains(after.group_floor[g])
        &&& after.calls[after.group_floor[g]].kind == CallKind::Group
        &&& after.calls[after.group_floor[g]].destination == g
    } by {
        if w.group_floor.dom().contains(g) {
            assert(w.calls.dom().contains(w.group_floor[g]));
        }
        match m {
            MessageModel::CallControl { identifier, payload, .. } => match payload {
                PayloadModel::GroupTransmission { destination, .. } => {
                    if w.group_floor.dom().contains(destination) {
                        assert(w.calls.dom().contains(w.group_floor[destination]));
                    }
                },
                _ => {},
            },
            _ => {},
        }
    }
}

/// A client that leaves keeps every floor held by a known group call.
pub proof fn floors_stay_held_on_cleanup(w: World, id: Id)
    requires
        floors_held(w),
    ensures
        floors_held(w.without_client(id)),
{
    let after = w.without_client(id);
    assert forall|g: u32| #[trigger] after.group_floor.dom().contains(g) implies {
        &&& after.calls.dom().contains(after.group_floor[g])
        &&& after.calls[after.group_floor[g]].kind == CallKind::Group
        &&& after.calls[after.group_floor[g]].destination == g
    } by {
        assert(w.group_floor.dom().contains(g));
        assert(!w.floor_falls(g, id));
    }
}

/// A server that knows nothing has no floors to hold.
pub proof fn floors_held_at_start()
    ensures
        floors_held(World::nothing()),
{
}

/// The body of a short-data message reaches those that its header reached, and
/// the report of each of them goes back to the sender alone.
pub proof fn sds_follows_its_header(
    w: World,
    now: u64,
    client: Id,
    id: Id,
    source: u32,
    destination: u32,
    header: Seq<u8>,
    body: Seq<u8>,
    report: Seq<u8>,
    target: Id,
)
    requires
        sds_targets(w, destination).remove(client).contains(target),
    ensures
        ({
            let opened = sds_header_step(w, now, client, id, source, destination, header);
            let moved = sds_transfer_out(opened.world, client, id, body);
            let back = sds_report_step(opened.world, target, id, report);
            &&& opened.out.sent.len() == 1
            &&& moved.sent.len() == 1
            &&& moved.sent[0].to == opened.out.sent[0].to
            &&& back.out.sent.len() == 1
            &&& forall|c: Id| #[trigger]
                back.out.sent[0].to.contains(c) <==> c == client && w.clients.dom().contains(client)
            &&& sds_targets(w, destination).remove(client).len() == 1
                ==> !back.world.sds_routes.dom().contains(id)
        }),
{
    let targets = sds_targets(w, destination).remove(client);
    assert(targets != Set::<Id>::empty());
}

/// A position in the body of a short-data message counts for the subscriber that its
/// header names as the sender.
pub proof fn positions_are_the_senders(
    w: World,
    now: u64,
    client: Id,
    id: Id,
    source: u32,
    destination: u32,
    header: Seq<u8>,
    body: Seq<u8>,
)
    requires
        sds_targets(w, destination).remove(client) != Set::<Id>::empty(),
    ensures
        ({
            let opened = sds_header_step(w, now, client, id, source, destination, header);
            sds_transfer_out(opened.world, client, id, body).events == told_position(
                source,
                frame_body(body),
            )
        }),
{
}

/// The body or a report of a transaction is not taken from a stranger.
pub proof fn sds_ignores_strangers(w: World, client: Id, id: Id, raw: Seq<u8>)
    ensures
        !(w.sds_routes.dom().contains(id) && w.sds_routes[id].source_client == client)
            ==> sds_transfer_out(w, client, id, raw) == silent(),
        !(w.sds_routes.dom().contains(id) && w.sds_routes[id].targets.contains(client))
            ==> sds_report_step(w, client, id, raw) == (Step { world: w, out: silent() }),
{
}

/// A private call to a subscriber reaches the client that registered it last.
pub proof fn registration_makes_reachable(
    w: World,
    now: u64,
    home: Id,
    issi: u32,
    caller: Id,
    id: Id,
    source: u32,
    number: Seq<char>,
    priority: u8,
    mnemonic: Option<Seq<char>>,
    registration: Seq<u8>,
    raw: Seq<u8>,
)
    requires
        caller != home,
    ensures
        ({
            let after = subscriber_step(
                w,
                home,
                SUB_REGISTER,
                issi,
                Set::empty(),
                registration,
            ).world;
            let call = PayloadModel::CircularCall {
                source,
                destination: issi,
                number,
                priority,
                mnemonic,
            };
            let s = private_setup_step(after, now, caller, id, call, raw);
            &&& s.out.sent.len() == 1
            &&& forall|c: Id| #[trigger]
                s.out.sent[0].to.contains(c) <==> c == home && w.clients.dom().contains(home)
            &&& s.world.calls[id].owner == caller
            &&& s.world.calls[id].peers == Set::<Id>::empty().insert(home)
        }),
{
}

/// Affiliation makes a group call reach the client, and deregistration of its
/// only subscriber in the group ends that.
pub proof fn affiliation_joins_the_group(
    w: World,
    p: RoutingPolicy,
    home: Id,
    issi: u32,
    groups: Set<u32>,
    gssi: u32,
    raw: Seq<u8>,
)
    requires
        groups.contains(gssi),
        owns(w, home, issi) || !w.subscribers.dom().contains(issi),
        w.clients.dom().contains(home),
    ensures
        ({
            let joined_world = subscriber_step(w, home, SUB_AFFILIATE, issi, groups, raw).world;
            let left = subscriber_step(
                joined_world,
                home,
                SUB_DEREGISTER,
                issi,
                Set::empty(),
                raw,
            ).world;
            &&& group_targets(joined_world, p, gssi).contains(home)
            &&& !left.subscribers.dom().contains(issi)
            &&& !in_group_through(left.subscribers, home, gssi)
                ==> !left.group_clients[gssi].contains(home)
        }),
{
    let a = subscriber_step(w, home, SUB_AFFILIATE, issi, groups, raw).world;
    assert(a.group_clients.dom().contains(gssi));
    assert(a.group_clients[gssi].contains(home));
    let left = subscriber_step(a, home, SUB_DEREGISTER, issi, Set::empty(), raw).world;
    assert(owns(a, home, issi));
    assert(a.subscribers[issi].groups.contains(gssi));
    assert(left.group_clients.dom().contains(gssi));
}

/// Registrations are relayed to peers only, and never back to where they came
/// from.
pub proof fn registrations_keep_split_horizon(
    w: World,
    client: Id,
    msg_type: u8,
    issi: u32,
    groups: Set<u32>,
    raw: Seq<u8>,
)
    ensures
        forall|i: int, c: Id|
            #![trigger subscriber_step(w, client, msg_type, issi, groups, raw).out.sent[i].to.contains(c)]
            0 <= i < subscriber_step(w, client, msg_type, issi, groups, raw).out.sent.len()
                && subscriber_step(w, client, msg_type, issi, groups, raw).out.sent[i].to.contains(
                c,
            ) ==> c != client && w.clients.dom().contains(c) && w.clients[c].mode
                == ClientMode::Peer,
{
}

/// Nobody's subscriber is touched by another client's deregistration,
/// affiliation or deaffiliation.
pub proof fn strangers_cannot_touch_registrations(
    w: World,
    client: Id,
    msg_type: u8,
    issi: u32,
    groups: Set<u32>,
    raw: Seq<u8>,
)
    requires
        w.subscribers.dom().contains(issi),
        w.subscribers[issi].client_id != client,
        msg_type != SUB_REGISTER,
        msg_type != SUB_REREGISTER,
    ensures
        subscriber_step(w, client, msg_type, issi, groups, raw) == (Step {
            world: w,
            out: silent(),
        }),
{
}

/// Ending a call forgets it and frees its floor.
pub proof fn ended_calls_are_forgotten(w: World, client: Id, id: Id, raw: Seq<u8>)
    requires
        w.calls.dom().contains(id),
        may_speak(w.calls[id], client),
    ensures
        ({
            let after = end_call_step(w, client, id, raw).world;
            &&& !after.calls.dom().contains(id)
            &&& w.calls[id].kind == CallKind::Group && after.group_floor.dom().contains(
                w.calls[id].destination,
            ) ==> after.group_floor[w.calls[id].destination] != id
            &&& call_frame_out(after, client, id, raw) == silent()
        }),
{
}

/// A call that lasts longer than allowed is ended for good: it is forgotten, every
/// connected participant is told, and its group can be spoken to again. Without a limit
/// no call is ended, and neither is one that keeps within it.
pub proof fn overdue_calls_end(w: World, now: u64, max_seconds: u64, id: Id)
    requires
        w.calls.dom().contains(id),
    ensures
        table::kept(w.calls, |c: CallModel| state::overdue(c, now, max_seconds)).dom().contains(id)
            <==> max_seconds > 0 && now - w.calls[id].started_at > max_seconds * 1_000_000_000,
        ({
            let s = force_end_step(w, id);
            &&& !s.world.calls.dom().contains(id)
            &&& s.out.sent.len() == 1
            &&& forall|c: Id| #[trigger]
                s.out.sent[0].to.contains(c) <==> w.calls[id].involves(c)
                    && w.clients.dom().contains(c)
            &&& floors_held(w) ==> floors_held(s.world)
            &&& floors_held(w) ==> forall|g: u32| #[trigger]
                s.world.group_floor.dom().contains(g) ==> s.world.group_floor[g] != id
            &&& forall|other: Id| #[trigger]
                s.world.calls.dom().contains(other) <==> w.calls.dom().contains(other) && other
                    != id
        }),
{
}

} // verus!

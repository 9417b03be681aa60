//! What routing promises, told over the server's tables: who receives a packet, and
//! what is remembered of it.
use crate::ids::Id;
use crate::position;
use crate::position_laws;
use crate::protocol;
use crate::protocol::{
    MessageModel, PayloadModel, CALL_ALERT, CALL_CONNECT_CONFIRM, CALL_CONNECT_REQUEST,
    CALL_GROUP_IDLE, CALL_GROUP_TX, CALL_RELEASE, CALL_SETUP_ACCEPT, CALL_SETUP_REJECT,
    CALL_SETUP_REQUEST, CALL_SHORT_TRANSFER, CALL_SIMPLEX_GRANTED, CALL_SIMPLEX_IDLE,
    FRAME_SDS_REPORT, FRAME_SDS_TRANSFER, FRAME_TRAFFIC_CHANNEL, SUB_AFFILIATE, SUB_DEAFFILIATE,
    SUB_DEREGISTER, SUB_REGISTER, SUB_REREGISTER,
};
use crate::registrations::RegKind;
use crate::router;
use crate::router::{EventModel, RoutingPolicy};
use crate::state::{CallKind, ClientMode, World};
use crate::text;
use vstd::prelude::*;

verus! {

/// Whether a client is affiliated to a group.
pub open spec fn affiliated(w: World, gssi: u32, x: Id) -> bool {
    w.group_clients.dom().contains(gssi) && w.group_clients[gssi].contains(x)
}

/// Whether some other call holds the floor of a group.
pub open spec fn floor_taken(w: World, p: RoutingPolicy, id: Id, gssi: u32) -> bool {
    &&& !p.allow_multiple_calls_per_group
    &&& w.group_floor.dom().contains(gssi)
    &&& w.group_floor[gssi] != id
    &&& w.calls.dom().contains(w.group_floor[gssi])
}

/// Whether a transmission comes too late: the floor is taken, and its priority does not
/// exceed that of the holder.
pub open spec fn comes_too_late(
    w: World,
    p: RoutingPolicy,
    id: Id,
    gssi: u32,
    priority: u8,
) -> bool {
    &&& floor_taken(w, p, id, gssi)
    &&& p.higher_priority_number_wins ==> priority <= w.calls[w.group_floor[gssi]].priority
    &&& !p.higher_priority_number_wins ==> priority >= w.calls[w.group_floor[gssi]].priority
}

/// A group transmission.
pub open spec fn group_tx(
    id: Id,
    source: u32,
    gssi: u32,
    priority: u8,
    access: u8,
    service: u16,
    mnemonic: Option<Seq<char>>,
) -> MessageModel {
    MessageModel::CallControl {
        call_state: CALL_GROUP_TX,
        identifier: id,
        payload: PayloadModel::GroupTransmission {
            source,
            destination: gssi,
            priority,
            access,
            service,
            mnemonic,
        },
    }
}

/// A group transmission reaches, of the connected clients other than the sender, those
/// affiliated to the group; all of them if affiliations do not count, or if nobody is
/// affiliated and such calls are broadcast. The same clients are the peers of the call
/// that is remembered, which now holds the floor.
pub proof fn group_calls_reach_the_group(
    w: World,
    p: RoutingPolicy,
    now: u64,
    client: Id,
    id: Id,
    source: u32,
    gssi: u32,
    priority: u8,
    access: u8,
    service: u16,
    mnemonic: Option<Seq<char>>,
    raw: Seq<u8>,
)
    requires
        !comes_too_late(w, p, id, gssi, priority),
    ensures
        ({
            let m = group_tx(id, source, gssi, priority, access, service, mnemonic);
            let s = router::message_step(w, p, now, client, m, raw);
            let broadcast = p.route_without_affiliations || (
            p.fallback_broadcast_when_no_affiliations && forall|y: Id| !affiliated(w, gssi, y));
            &&& s.out.sent.len() == (if floor_taken(w, p, id, gssi) {
                2int
            } else {
                1
            })
            &&& s.out.sent.last().packet == raw
            &&& forall|x: Id| #[trigger]
                s.out.sent.last().to.contains(x) <==> w.clients.dom().contains(x) && x != client
                    && (broadcast || affiliated(w, gssi, x))
            &&& s.world.calls.dom().contains(id)
            &&& forall|x: Id| #[trigger]
                s.world.calls[id].peers.contains(x) <==> x != client && if broadcast {
                    w.clients.dom().contains(x)
                } else {
                    affiliated(w, gssi, x)
                }
            &&& s.world.calls[id].kind == CallKind::Group
            &&& s.world.calls[id].owner == client
            &&& s.world.calls[id].source_issi == source
            &&& s.world.calls[id].destination == gssi
            &&& s.world.calls[id].priority == priority
            &&& s.world.calls[id].started_at == now
            &&& s.world.group_floor.dom().contains(gssi)
            &&& s.world.group_floor[gssi] == id
            &&& s.out.events == seq![
                EventModel::CallStarted {
                    id,
                    kind: CallKind::Group,
                    source,
                    destination: gssi,
                    priority,
                },
            ]
        }),
{
    let m = group_tx(id, source, gssi, priority, access, service, mnemonic);
    let s = router::message_step(w, p, now, client, m, raw);
    let members = if w.group_clients.dom().contains(gssi) {
        w.group_clients[gssi]
    } else {
        Set::empty()
    };
    if forall|y: Id| !affiliated(w, gssi, y) {
        assert forall|y: Id| !members.contains(y) by {
            assert(!affiliated(w, gssi, y));
        }
        assert(members =~= Set::empty());
    } else {
        let y = choose|y: Id| affiliated(w, gssi, y);
        assert(members.contains(y));
    }
    assert forall|x: Id| members.contains(x) == affiliated(w, gssi, x) by {}
}

/// A group transmission changes nothing but its own call, the floor of its group, and
/// the call that it takes the floor from, which is forgotten.
pub proof fn group_calls_leave_the_rest_alone(
    w: World,
    p: RoutingPolicy,
    now: u64,
    client: Id,
    id: Id,
    source: u32,
    gssi: u32,
    priority: u8,
    access: u8,
    service: u16,
    mnemonic: Option<Seq<char>>,
    raw: Seq<u8>,
)
    ensures
        ({
            let m = group_tx(id, source, gssi, priority, access, service, mnemonic);
            let after = router::message_step(w, p, now, client, m, raw).world;
            &&& after.clients == w.clients
            &&& after.subscribers == w.subscribers
            &&& after.group_clients == w.group_clients
            &&& after.sds_routes == w.sds_routes
            &&& after.digest_nonces == w.digest_nonces
            &&& after.auth_sessions == w.auth_sessions
            &&& forall|c: Id| c != id ==> (#[trigger] after.calls.dom().contains(c)
                <==> w.calls.dom().contains(c) && !(floor_taken(w, p, id, gssi)
                && !comes_too_late(w, p, id, gssi, priority) && w.group_floor[gssi] == c))
            &&& forall|c: Id|
                c != id && #[trigger] after.calls.dom().contains(c) ==> after.calls[c]
                    == w.calls[c]
            &&& forall|g: u32| g != gssi ==> (#[trigger] after.group_floor.dom().contains(g)
                <==> w.group_floor.dom().contains(g))
            &&& forall|g: u32|
                g != gssi && #[trigger] after.group_floor.dom().contains(g) ==> after.group_floor[g]
                    == w.group_floor[g]
        }),
{
}

/// A group transmission that comes too late changes nothing and reaches nobody.
pub proof fn taken_floors_are_kept(
    w: World,
    p: RoutingPolicy,
    now: u64,
    client: Id,
    id: Id,
    source: u32,
    gssi: u32,
    priority: u8,
    access: u8,
    service: u16,
    mnemonic: Option<Seq<char>>,
    raw: Seq<u8>,
)
    requires
        comes_too_late(w, p, id, gssi, priority),
    ensures
        ({
            let m = group_tx(id, source, gssi, priority, access, service, mnemonic);
            let s = router::message_step(w, p, now, client, m, raw);
            &&& s.world == w
            &&& s.out.sent.len() == 0
            &&& s.out.events.len() == 0
        }),
{
}

/// A group transmission that takes the floor from another call tells all who took part
/// in that call, with the operator's cause, before it goes out itself.
pub proof fn displaced_calls_are_told(
    w: World,
    p: RoutingPolicy,
    now: u64,
    client: Id,
    id: Id,
    source: u32,
    gssi: u32,
    priority: u8,
    access: u8,
    service: u16,
    mnemonic: Option<Seq<char>>,
    raw: Seq<u8>,
)
    requires
        floor_taken(w, p, id, gssi),
        !comes_too_late(w, p, id, gssi, priority),
    ensures
        ({
            let m = group_tx(id, source, gssi, priority, access, service, mnemonic);
            let s = router::message_step(w, p, now, client, m, raw);
            let old = w.calls[w.group_floor[gssi]];
            &&& s.out.sent.len() == 2
            &&& s.out.sent[0].packet == protocol::call_cause_packet(
                CALL_GROUP_IDLE,
                w.group_floor[gssi],
                p.preempt_cause,
            )
            &&& forall|x: Id| #[trigger]
                s.out.sent[0].to.contains(x) <==> w.clients.dom().contains(x) && (old.owner == x
                    || old.peers.contains(x))
        }),
{
}

/// A call-control message about a call in progress: neither a group transmission nor a
/// short-data header.
pub open spec fn control(call_state: u8, id: Id, payload: PayloadModel) -> MessageModel
    recommends
        !(payload is GroupTransmission),
        !(payload is ShortTransfer),
{
    MessageModel::CallControl { call_state, identifier: id, payload }
}

/// A set-up request for a private call.
pub open spec fn setup(
    id: Id,
    source: u32,
    destination: u32,
    number: Seq<char>,
    priority: u8,
    mnemonic: Option<Seq<char>>,
) -> MessageModel {
    MessageModel::CallControl {
        call_state: CALL_SETUP_REQUEST,
        identifier: id,
        payload: PayloadModel::CircularCall { source, destination, number, priority, mnemonic },
    }
}

/// A set-up request reaches exactly the client that the called subscriber is registered
/// on, and a private call between the two is remembered. Nothing happens if that is the
/// calling client itself. A subscriber that is not registered is offered to the SIP side:
/// by the number that was dialled, or by its own where none was.
pub proof fn set_up_rings_the_called_party(
    w: World,
    p: RoutingPolicy,
    now: u64,
    client: Id,
    id: Id,
    source: u32,
    destination: u32,
    number: Seq<char>,
    priority: u8,
    mnemonic: Option<Seq<char>>,
    raw: Seq<u8>,
)
    ensures
        ({
            let m = setup(id, source, destination, number, priority, mnemonic);
            let s = router::message_step(w, p, now, client, m, raw);
            let registered = w.subscribers.dom().contains(destination);
            let home = w.subscribers[destination].client_id;
            &&& registered && home != client ==> {
                &&& s.out.sent.len() == 1
                &&& s.out.sent[0].packet == raw
                &&& forall|x: Id| #[trigger]
                    s.out.sent[0].to.contains(x) <==> w.clients.dom().contains(x) && x == home
                &&& forall|c: Id| #[trigger]
                    s.world.calls.dom().contains(c) <==> w.calls.dom().contains(c) || c == id
                &&& forall|c: Id|
                    c != id && #[trigger] s.world.calls.dom().contains(c) ==> s.world.calls[c]
                        == w.calls[c]
                &&& s.world.calls[id].kind == CallKind::Private
                &&& s.world.calls[id].owner == client
                &&& s.world.calls[id].source_issi == source
                &&& s.world.calls[id].destination == destination
                &&& s.world.calls[id].started_at == now
                &&& forall|x: Id| #[trigger]
                    s.world.calls[id].peers.contains(x) <==> x == home
                &&& s.world == (World { calls: s.world.calls, ..w })
                &&& s.out.events == seq![
                    EventModel::CallStarted {
                        id,
                        kind: CallKind::Private,
                        source,
                        destination,
                        priority: 0,
                    },
                ]
            }
            &&& registered && home == client ==> {
                &&& s.world == w
                &&& s.out.sent.len() == 0
                &&& s.out.events.len() == 0
            }
            &&& !registered ==> {
                &&& s.world == w
                &&& s.out.sent.len() == 0
                &&& s.out.events.len() == 1
                &&& s.out.events[0] matches EventModel::OfferSip {
                    id: call,
                    client: caller,
                    issi,
                    dialled,
                } && call == id && caller == client && issi == source && dialled == (
                if number.len() == 0 {
                    text::decimal(destination as nat)
                } else {
                    number
                })
            }
        }),
{
}

/// Accepting, rejecting, ringing, answering and passing the turn to speak reach, of the
/// connected clients other than the sender, exactly those that take part in the private
/// call. They change nothing, and reach nobody about a group call or an unknown one.
pub proof fn control_reaches_the_rest_of_the_call(
    w: World,
    p: RoutingPolicy,
    now: u64,
    client: Id,
    call_state: u8,
    id: Id,
    payload: PayloadModel,
    raw: Seq<u8>,
)
    requires
        call_state == CALL_SETUP_ACCEPT || call_state == CALL_SETUP_REJECT || call_state
            == CALL_ALERT || call_state == CALL_CONNECT_REQUEST || call_state
            == CALL_CONNECT_CONFIRM || call_state == CALL_SIMPLEX_GRANTED || call_state
            == CALL_SIMPLEX_IDLE,
        !(payload is GroupTransmission),
        !(payload is ShortTransfer),
    ensures
        ({
            let s = router::message_step(w, p, now, client, control(call_state, id, payload), raw);
            let c = w.calls[id];
            &&& s.world == w
            &&& s.out.events.len() == 0
            &&& w.calls.dom().contains(id) && c.kind == CallKind::Private ==> {
                &&& s.out.sent.len() == 1
                &&& s.out.sent[0].packet == raw
                &&& forall|x: Id| #[trigger]
                    s.out.sent[0].to.contains(x) <==> w.clients.dom().contains(x) && x != client
                        && (c.owner == x || c.peers.contains(x))
            }
            &&& !(w.calls.dom().contains(id) && c.kind == CallKind::Private) ==> s.out.sent.len()
                == 0
        }),
{
}

/// A voice frame reaches, of the connected clients other than the sender, those that take
/// part in the call, and counts. In a group call only the owner is heard; in a private
/// call both sides are. It changes nothing.
pub proof fn speech_reaches_the_listeners(
    w: World,
    p: RoutingPolicy,
    now: u64,
    client: Id,
    id: Id,
    length_bits: u16,
    data: Seq<u8>,
    raw: Seq<u8>,
)
    ensures
        ({
            let m = MessageModel::Frame {
                frame_type: FRAME_TRAFFIC_CHANNEL,
                identifier: id,
                length_bits,
                data,
            };
            let s = router::message_step(w, p, now, client, m, raw);
            let c = w.calls[id];
            let heard = w.calls.dom().contains(id) && (c.owner == client || (c.kind
                == CallKind::Private && c.peers.contains(client)));
            &&& s.world == w
            &&& heard ==> {
                &&& s.out.sent.len() == 1
                &&& s.out.sent[0].packet == raw
                &&& forall|x: Id| #[trigger]
                    s.out.sent[0].to.contains(x) <==> w.clients.dom().contains(x) && x != client
                        && (c.owner == x || c.peers.contains(x))
                &&& s.out.events == seq![EventModel::VoiceFrame { id }]
            }
            &&& !heard ==> s.out.sent.len() == 0 && s.out.events.len() == 0
        }),
{
}

/// The end of a call reaches, of the connected clients other than the sender, those that
/// take part in it. It is taken from the owner of a group call and from both sides of a
/// private one. The call is forgotten, its floor is free, and nothing else changes.
pub proof fn hanging_up_ends_the_call(
    w: World,
    p: RoutingPolicy,
    now: u64,
    client: Id,
    call_state: u8,
    id: Id,
    payload: PayloadModel,
    raw: Seq<u8>,
)
    requires
        call_state == CALL_GROUP_IDLE || call_state == CALL_RELEASE,
        !(payload is GroupTransmission),
        !(payload is ShortTransfer),
    ensures
        ({
            let s = router::message_step(w, p, now, client, control(call_state, id, payload), raw);
            let c = w.calls[id];
            let ends = w.calls.dom().contains(id) && (c.owner == client || (c.kind
                == CallKind::Private && c.peers.contains(client)));
            &&& ends ==> {
                &&& s.out.sent.len() == 1
                &&& s.out.sent[0].packet == raw
                &&& forall|x: Id| #[trigger]
                    s.out.sent[0].to.contains(x) <==> w.clients.dom().contains(x) && x != client
                        && (c.owner == x || c.peers.contains(x))
                &&& s.out.events == seq![EventModel::CallEnded { id }]
                &&& forall|other: Id| #[trigger]
                    s.world.calls.dom().contains(other) <==> w.calls.dom().contains(other) && other
                        != id
                &&& forall|other: Id| #[trigger]
                    s.world.calls.dom().contains(other) ==> s.world.calls[other] == w.calls[other]
                &&& forall|g: u32| #[trigger]
                    s.world.group_floor.dom().contains(g) <==> w.group_floor.dom().contains(g) && !(
                    c.kind == CallKind::Group && g == c.destination && w.group_floor[g] == id)
                &&& forall|g: u32| #[trigger]
                    s.world.group_floor.dom().contains(g) ==> s.world.group_floor[g]
                        == w.group_floor[g]
                &&& s.world == (World {
                    calls: s.world.calls,
                    group_floor: s.world.group_floor,
                    ..w
                })
            }
            &&& !ends ==> s.world == w && s.out.sent.len() == 0 && s.out.events.len() == 0
        }),
{
    let c = w.calls[id];
    if c.kind == CallKind::Group {
        assert(c.kind != CallKind::Private);
    } else {
        assert(c.kind == CallKind::Private);
    }
}

/// A private call runs both ways: once set up, what the called client says of it (that it
/// rings, answers, speaks or hangs up) goes to the caller alone, and what the caller says
/// goes to the called client alone.
pub proof fn private_calls_run_both_ways(
    w: World,
    p: RoutingPolicy,
    now: u64,
    caller: Id,
    called: Id,
    id: Id,
    source: u32,
    destination: u32,
    number: Seq<char>,
    priority: u8,
    mnemonic: Option<Seq<char>>,
    request: Seq<u8>,
    m: MessageModel,
    raw: Seq<u8>,
)
    requires
        caller != called,
        w.clients.dom().contains(caller),
        w.clients.dom().contains(called),
        w.subscribers.dom().contains(destination),
        w.subscribers[destination].client_id == called,
        match m {
            MessageModel::CallControl { call_state, identifier, payload } => {
                &&& identifier == id
                &&& !(payload is GroupTransmission)
                &&& !(payload is ShortTransfer)
                &&& call_state == CALL_SETUP_ACCEPT || call_state == CALL_SETUP_REJECT || call_state
                    == CALL_ALERT || call_state == CALL_CONNECT_REQUEST || call_state
                    == CALL_CONNECT_CONFIRM || call_state == CALL_SIMPLEX_GRANTED || call_state
                    == CALL_SIMPLEX_IDLE || call_state == CALL_RELEASE
            },
            MessageModel::Frame { frame_type, identifier, .. } => frame_type
                == FRAME_TRAFFIC_CHANNEL && identifier == id,
            _ => false,
        },
    ensures
        ({
            let open = router::message_step(
                w,
                p,
                now,
                caller,
                setup(id, source, destination, number, priority, mnemonic),
                request,
            ).world;
            let back = router::message_step(open, p, now, called, m, raw).out.sent;
            let forth = router::message_step(open, p, now, caller, m, raw).out.sent;
            &&& back.len() == 1
            &&& back[0].packet == raw
            &&& back[0].to == Set::<Id>::empty().insert(caller)
            &&& forth.len() == 1
            &&& forth[0].packet == raw
            &&& forth[0].to == Set::<Id>::empty().insert(called)
        }),
{
    let open = router::message_step(
        w,
        p,
        now,
        caller,
        setup(id, source, destination, number, priority, mnemonic),
        request,
    ).world;
    set_up_rings_the_called_party(
        w,
        p,
        now,
        caller,
        id,
        source,
        destination,
        number,
        priority,
        mnemonic,
        request,
    );
    assert(open.calls[id].peers =~= Set::<Id>::empty().insert(called));
    let back = router::message_step(open, p, now, called, m, raw).out.sent;
    let forth = router::message_step(open, p, now, caller, m, raw).out.sent;
    assert(open.calls[id].peers.contains(called));
    assert(back[0].to =~= Set::<Id>::empty().insert(caller));
    assert(forth[0].to =~= Set::<Id>::empty().insert(called));
}

/// The header of a short-data message.
pub open spec fn sds_header(id: Id, source: u32, destination: u32) -> MessageModel {
    MessageModel::CallControl {
        call_state: CALL_SHORT_TRANSFER,
        identifier: id,
        payload: PayloadModel::ShortTransfer { source, destination },
    }
}

/// A frame about a short-data message.
pub open spec fn frame(frame_type: u8, id: Id, length_bits: u16, data: Seq<u8>) -> MessageModel {
    MessageModel::Frame { frame_type, identifier: id, length_bits, data }
}

/// Whether a short-data message for a destination is meant for a client: a subscriber of
/// that number is registered on it, or it is affiliated to the group of that number.
pub open spec fn addressed(w: World, destination: u32, x: Id) -> bool {
    ||| w.subscribers.dom().contains(destination) && w.subscribers[destination].client_id == x
    ||| w.group_clients.dom().contains(destination) && w.group_clients[destination].contains(x)
}

/// The header of a short-data message reaches, of the connected clients other than the
/// sender, exactly those that it is meant for, and a transaction toward them is open from
/// then on. If it is meant for nobody but the sender, nothing happens.
pub proof fn short_data_reaches_its_destination(
    w: World,
    p: RoutingPolicy,
    now: u64,
    client: Id,
    id: Id,
    source: u32,
    destination: u32,
    raw: Seq<u8>,
)
    ensures
        ({
            let s = router::message_step(
                w,
                p,
                now,
                client,
                sds_header(id, source, destination),
                raw,
            );
            let somebody = exists|x: Id| x != client && #[trigger] addressed(w, destination, x);
            &&& somebody ==> {
                &&& s.out.sent.len() == 1
                &&& s.out.sent[0].packet == raw
                &&& forall|x: Id| #[trigger]
                    s.out.sent[0].to.contains(x) <==> w.clients.dom().contains(x) && x != client
                        && addressed(w, destination, x)
                &&& s.out.events == seq![EventModel::Sds { id, source, destination }]
                &&& s.world.sds_routes.dom() == w.sds_routes.dom().insert(id)
                &&& s.world.sds_routes[id].source_client == client
                &&& s.world.sds_routes[id].source_issi == source
                &&& s.world.sds_routes[id].destination == destination
                &&& s.world.sds_routes[id].created_at == now
                &&& forall|x: Id| #[trigger]
                    s.world.sds_routes[id].targets.contains(x) <==> x != client && addressed(
                        w,
                        destination,
                        x,
                    )
                &&& forall|other: Id|
                    other != id && #[trigger] w.sds_routes.dom().contains(other)
                        ==> s.world.sds_routes[other] == w.sds_routes[other]
                &&& s.world == (World { sds_routes: s.world.sds_routes, ..w })
            }
            &&& !somebody ==> s.world == w && s.out.sent.len() == 0 && s.out.events.len() == 0
        }),
{
    let s = router::message_step(w, p, now, client, sds_header(id, source, destination), raw);
    let targets = router::sds_targets(w, destination).remove(client);
    assert forall|x: Id| targets.contains(x) == (x != client && addressed(w, destination, x)) by {}
    if exists|x: Id| x != client && #[trigger] addressed(w, destination, x) {
        let x = choose|x: Id| x != client && #[trigger] addressed(w, destination, x);
        assert(targets.contains(x));
        assert(s.world.sds_routes.dom() =~= w.sds_routes.dom().insert(id));
    } else {
        assert forall|x: Id| !targets.contains(x) by {
            assert(!(x != client && addressed(w, destination, x)));
        }
        assert(targets =~= Set::empty());
    }
}

/// The body of a short-data message is taken from the client that opened the transaction,
/// and reaches the connected ones among its targets. It changes nothing.
pub proof fn short_data_body_reaches_the_targets(
    w: World,
    p: RoutingPolicy,
    now: u64,
    client: Id,
    id: Id,
    length_bits: u16,
    data: Seq<u8>,
    raw: Seq<u8>,
)
    ensures
        ({
            let m = frame(FRAME_SDS_TRANSFER, id, length_bits, data);
            let s = router::message_step(w, p, now, client, m, raw);
            let r = w.sds_routes[id];
            let taken = w.sds_routes.dom().contains(id) && r.source_client == client;
            &&& s.world == w
            &&& taken ==> {
                &&& s.out.sent.len() == 1
                &&& s.out.sent[0].packet == raw
                &&& forall|x: Id| #[trigger]
                    s.out.sent[0].to.contains(x) <==> w.clients.dom().contains(x)
                        && r.targets.contains(x)
                &&& s.out.events.len() <= 1
                &&& forall|i: int|
                    0 <= i < s.out.events.len() ==> match #[trigger] s.out.events[i] {
                        EventModel::Position { issi, .. } => issi == r.source_issi,
                        EventModel::Beacon { issi, .. } => issi == r.source_issi,
                        _ => false,
                    }
            }
            &&& !taken ==> s.out.sent.len() == 0 && s.out.events.len() == 0
        }),
{
}

/// The report on a short-data message is taken from its targets, and goes to the client
/// that opened the transaction. The only target's report closes the transaction; with
/// several targets it stays open.
pub proof fn short_data_report_goes_back(
    w: World,
    p: RoutingPolicy,
    now: u64,
    client: Id,
    id: Id,
    length_bits: u16,
    data: Seq<u8>,
    raw: Seq<u8>,
)
    ensures
        ({
            let m = frame(FRAME_SDS_REPORT, id, length_bits, data);
            let s = router::message_step(w, p, now, client, m, raw);
            let r = w.sds_routes[id];
            let taken = w.sds_routes.dom().contains(id) && r.targets.contains(client);
            &&& s.world == (World { sds_routes: s.world.sds_routes, ..w })
            &&& taken ==> {
                &&& s.out.sent.len() == 1
                &&& s.out.sent[0].packet == raw
                &&& forall|x: Id| #[trigger]
                    s.out.sent[0].to.contains(x) <==> w.clients.dom().contains(x) && x
                        == r.source_client
                &&& s.out.events == seq![EventModel::SdsReport { id }]
                &&& r.targets == Set::<Id>::empty().insert(client)
                    ==> !s.world.sds_routes.dom().contains(id)
                &&& (exists|x: Id| x != client && #[trigger] r.targets.contains(x))
                    && r.targets.finite() ==> s.world.sds_routes.dom().contains(id)
            }
            &&& !taken ==> s.world == w && s.out.sent.len() == 0 && s.out.events.len() == 0
            &&& forall|other: Id| other != id ==> (#[trigger] s.world.sds_routes.dom().contains(
                other,
            ) <==> w.sds_routes.dom().contains(other))
            &&& forall|other: Id| #[trigger]
                s.world.sds_routes.dom().contains(other) ==> s.world.sds_routes[other]
                    == w.sds_routes[other]
        }),
{
    let targets = w.sds_routes[id].targets;
    if targets == Set::<Id>::empty().insert(client) {
        assert(targets.len() == 1);
    }
    if (exists|x: Id| x != client && #[trigger] targets.contains(x)) && targets.finite()
        && targets.contains(client) {
        let x = choose|x: Id| x != client && #[trigger] targets.contains(x);
        assert(targets.remove(client).contains(x));
        assert(targets.remove(client).len() > 0);
        assert(targets.len() == targets.remove(client).len() + 1);
    }
}

/// A subscriber message.
pub open spec fn about_subscriber(
    msg_type: u8,
    issi: u32,
    timestamp: u64,
    fraction: u32,
    groups: Seq<u32>,
) -> MessageModel {
    MessageModel::Subscriber { msg_type, issi, timestamp, fraction, groups }
}

/// Registering a subscriber puts it on the client, with the groups that it was in before.
/// Where it was on another client, that client gives its place in those groups to the new
/// one. Every other subscriber, group and place stays as it was.
pub proof fn registering_moves_the_subscriber(
    w: World,
    p: RoutingPolicy,
    now: u64,
    client: Id,
    msg_type: u8,
    issi: u32,
    timestamp: u64,
    fraction: u32,
    groups: Seq<u32>,
    raw: Seq<u8>,
)
    requires
        msg_type == SUB_REGISTER || msg_type == SUB_REREGISTER,
    ensures
        ({
            let m = about_subscriber(msg_type, issi, timestamp, fraction, groups);
            let after = router::message_step(w, p, now, client, m, raw).world;
            let known = w.subscribers.dom().contains(issi);
            let before = w.subscribers[issi];
            let moves = known && before.client_id != client;
            &&& forall|i: u32| #[trigger]
                after.subscribers.dom().contains(i) <==> w.subscribers.dom().contains(i) || i
                    == issi
            &&& forall|i: u32|
                i != issi && #[trigger] w.subscribers.dom().contains(i) ==> after.subscribers[i]
                    == w.subscribers[i]
            &&& after.subscribers[issi].client_id == client
            &&& after.subscribers[issi].mode == (if w.clients.dom().contains(client) {
                w.clients[client].mode
            } else {
                ClientMode::Basestation
            })
            &&& forall|g: u32| #[trigger]
                after.subscribers[issi].groups.contains(g) <==> known && before.groups.contains(g)
            &&& forall|g: u32| #[trigger]
                after.group_clients.dom().contains(g) <==> w.group_clients.dom().contains(g)
            &&& forall|g: u32, x: Id|
                w.group_clients.dom().contains(g) ==> (
                #[trigger] after.group_clients[g].contains(x) <==> if moves
                    && before.groups.contains(g) {
                    x == client || (x != before.client_id && w.group_clients[g].contains(x))
                } else {
                    w.group_clients[g].contains(x)
                })
            &&& after == (World {
                subscribers: after.subscribers,
                group_clients: after.group_clients,
                ..w
            })
        }),
{
}

/// A group call reaches the client that a member of the group has moved to, and no longer
/// the one that it has left.
pub proof fn group_calls_follow_the_subscriber(
    w: World,
    p: RoutingPolicy,
    now: u64,
    client: Id,
    msg_type: u8,
    issi: u32,
    gssi: u32,
    registration: Seq<u8>,
    third: Id,
    id: Id,
    source: u32,
    priority: u8,
    raw: Seq<u8>,
)
    requires
        msg_type == SUB_REGISTER || msg_type == SUB_REREGISTER,
        w.subscribers.dom().contains(issi),
        w.subscribers[issi].client_id != client,
        w.subscribers[issi].groups.contains(gssi),
        w.group_clients.dom().contains(gssi),
        w.clients.dom().contains(client),
        third != client,
        !comes_too_late(w, p, id, gssi, priority),
    ensures
        ({
            let moved = router::message_step(
                w,
                p,
                now,
                client,
                about_subscriber(msg_type, issi, 0, 0, Seq::empty()),
                registration,
            ).world;
            let m = group_tx(id, source, gssi, priority, 0, 0, None);
            let sent = router::message_step(moved, p, now, third, m, raw).out.sent;
            &&& sent.len() > 0
            &&& sent.last().packet == raw
            &&& sent.last().to.contains(client)
            &&& !p.route_without_affiliations ==> !sent.last().to.contains(
                w.subscribers[issi].client_id,
            )
        }),
{
    let m = about_subscriber(msg_type, issi, 0, 0, Seq::empty());
    let moved = router::message_step(w, p, now, client, m, registration).world;
    registering_moves_the_subscriber(
        w,
        p,
        now,
        client,
        msg_type,
        issi,
        0,
        0,
        Seq::empty(),
        registration,
    );
    assert(moved.group_clients[gssi].contains(client));
    assert(affiliated(moved, gssi, client));
    assert(!affiliated(moved, gssi, w.subscribers[issi].client_id)) by {
        assert(!moved.group_clients[gssi].contains(w.subscribers[issi].client_id));
    }
    group_calls_reach_the_group(
        moved,
        p,
        now,
        third,
        id,
        source,
        gssi,
        priority,
        0,
        0,
        None,
        raw,
    );
}

/// Affiliating a subscriber adds the groups to those it is in, and its client to those
/// groups; a subscriber that is not registered becomes so on the spot. Only the client
/// that a subscriber is registered on can do so, and nothing else changes.
pub proof fn affiliating_joins_the_groups(
    w: World,
    p: RoutingPolicy,
    now: u64,
    client: Id,
    issi: u32,
    timestamp: u64,
    fraction: u32,
    groups: Seq<u32>,
    raw: Seq<u8>,
)
    ensures
        ({
            let m = about_subscriber(SUB_AFFILIATE, issi, timestamp, fraction, groups);
            let after = router::message_step(w, p, now, client, m, raw).world;
            let known = w.subscribers.dom().contains(issi);
            let before = w.subscribers[issi];
            let allowed = !known || before.client_id == client;
            &&& allowed ==> {
                &&& forall|i: u32| #[trigger]
                    after.subscribers.dom().contains(i) <==> w.subscribers.dom().contains(i) || i
                        == issi
                &&& forall|i: u32|
                    i != issi && #[trigger] w.subscribers.dom().contains(i) ==> after.subscribers[i]
                        == w.subscribers[i]
                &&& after.subscribers[issi].client_id == client
                &&& after.subscribers[issi].mode == (if known {
                    before.mode
                } else if w.clients.dom().contains(client) {
                    w.clients[client].mode
                } else {
                    ClientMode::Basestation
                })
                &&& forall|g: u32| #[trigger]
                    after.subscribers[issi].groups.contains(g) <==> groups.contains(g) || (known
                        && before.groups.contains(g))
                &&& forall|g: u32| #[trigger]
                    after.group_clients.dom().contains(g) <==> w.group_clients.dom().contains(g)
                        || groups.contains(g)
                &&& forall|g: u32, x: Id|
                    w.group_clients.dom().contains(g) || groups.contains(g) ==> (
                    #[trigger] after.group_clients[g].contains(x) <==> affiliated(w, g, x) || (x
                        == client && groups.contains(g)))
                &&& after == (World {
                    subscribers: after.subscribers,
                    group_clients: after.group_clients,
                    ..w
                })
            }
            &&& !allowed ==> after == w
        }),
{
}

/// What a client keeps in its groups after a subscriber of it has gone or has left groups:
/// its place in a group that was left, as long as another of its subscribers is in it.
pub proof fn leaving_keeps_the_others_places(
    w: World,
    p: RoutingPolicy,
    now: u64,
    client: Id,
    msg_type: u8,
    issi: u32,
    timestamp: u64,
    fraction: u32,
    groups: Seq<u32>,
    raw: Seq<u8>,
)
    requires
        msg_type == SUB_DEREGISTER || msg_type == SUB_DEAFFILIATE,
    ensures
        ({
            let m = about_subscriber(msg_type, issi, timestamp, fraction, groups);
            let after = router::message_step(w, p, now, client, m, raw).world;
            let before = w.subscribers[issi];
            let allowed = w.subscribers.dom().contains(issi) && before.client_id == client;
            &&& allowed ==> {
                &&& forall|i: u32| #[trigger]
                    after.subscribers.dom().contains(i) <==> w.subscribers.dom().contains(i) && !(i
                        == issi && msg_type == SUB_DEREGISTER)
                &&& forall|i: u32|
                    i != issi && #[trigger] w.subscribers.dom().contains(i) ==> after.subscribers[i]
                        == w.subscribers[i]
                &&& msg_type == SUB_DEAFFILIATE ==> {
                    &&& after.subscribers[issi].client_id == client
                    &&& after.subscribers[issi].mode == before.mode
                    &&& forall|g: u32| #[trigger]
                        after.subscribers[issi].groups.contains(g) <==> before.groups.contains(g)
                            && !groups.contains(g)
                }
                &&& forall|g: u32| #[trigger]
                    after.group_clients.dom().contains(g) <==> w.group_clients.dom().contains(g)
                &&& forall|g: u32, x: Id|
                    w.group_clients.dom().contains(g) ==> (
                    #[trigger] after.group_clients[g].contains(x) <==> w.group_clients[g].contains(
                        x,
                    ) && (x != client || !(if msg_type == SUB_DEREGISTER {
                        before.groups.contains(g)
                    } else {
                        groups.contains(g)
                    }) || exists|i: u32|
                        i != issi && #[trigger] w.subscribers.dom().contains(i)
                            && w.subscribers[i].client_id == client
                            && w.subscribers[i].groups.contains(g)))
                &&& after == (World {
                    subscribers: after.subscribers,
                    group_clients: after.group_clients,
                    ..w
                })
            }
            &&& !allowed ==> after == w
        }),
{
    let m = about_subscriber(msg_type, issi, timestamp, fraction, groups);
    let after = router::message_step(w, p, now, client, m, raw).world;
    if w.subscribers.dom().contains(issi) && w.subscribers[issi].client_id == client {
        assert forall|g: u32, x: Id| w.group_clients.dom().contains(g) implies (
        #[trigger] after.group_clients[g].contains(x) <==> w.group_clients[g].contains(x) && (x
            != client || !(if msg_type == SUB_DEREGISTER {
            w.subscribers[issi].groups.contains(g)
        } else {
            groups.contains(g)
        }) || exists|i: u32|
            i != issi && #[trigger] w.subscribers.dom().contains(i) && w.subscribers[i].client_id
                == client && w.subscribers[i].groups.contains(g))) by {
            let left = if msg_type == SUB_DEREGISTER {
                w.subscribers[issi].groups.contains(g)
            } else {
                groups.contains(g)
            };
            if left {
                if router::in_group_through(after.subscribers, client, g) {
                    let i = choose|i: u32| #[trigger]
                        after.subscribers.dom().contains(i) && after.subscribers[i].client_id
                            == client && after.subscribers[i].groups.contains(g);
                    assert(i != issi && w.subscribers.dom().contains(i));
                }
                if exists|i: u32|
                    i != issi && #[trigger] w.subscribers.dom().contains(i)
                        && w.subscribers[i].client_id == client
                        && w.subscribers[i].groups.contains(g) {
                    let i = choose|i: u32|
                        i != issi && #[trigger] w.subscribers.dom().contains(i)
                            && w.subscribers[i].client_id == client
                            && w.subscribers[i].groups.contains(g);
                    assert(after.subscribers.dom().contains(i));
                    assert(router::in_group_through(after.subscribers, client, g));
                }
            }
        }
    }
}

/// What a client teaches the server of its subscribers goes to the connected peers other
/// than the client itself, and to nobody else. A terminal that registers or deregisters is
/// noted. What a client may not say goes nowhere.
pub proof fn registrations_reach_the_peers(
    w: World,
    p: RoutingPolicy,
    now: u64,
    client: Id,
    msg_type: u8,
    issi: u32,
    timestamp: u64,
    fraction: u32,
    groups: Seq<u32>,
    raw: Seq<u8>,
)
    ensures
        ({
            let m = about_subscriber(msg_type, issi, timestamp, fraction, groups);
            let out = router::message_step(w, p, now, client, m, raw).out;
            let known = w.subscribers.dom().contains(issi);
            let own = known && w.subscribers[issi].client_id == client;
            let registers = msg_type == SUB_REGISTER || msg_type == SUB_REREGISTER;
            let heeded = registers || (msg_type == SUB_AFFILIATE && (own || !known)) || ((msg_type
                == SUB_DEREGISTER || msg_type == SUB_DEAFFILIATE) && own);
            let terminal = w.clients.dom().contains(client) && w.clients[client].mode
                == ClientMode::Terminal;
            &&& heeded ==> {
                &&& out.sent.len() == 1
                &&& out.sent[0].packet == raw
                &&& forall|x: Id| #[trigger]
                    out.sent[0].to.contains(x) <==> w.clients.dom().contains(x) && x != client
                        && w.clients[x].mode == ClientMode::Peer
                &&& out.events == (if terminal && registers {
                    seq![EventModel::Registration { issi, kind: RegKind::Register }]
                } else if terminal && msg_type == SUB_DEREGISTER {
                    seq![EventModel::Registration { issi, kind: RegKind::Deregister }]
                } else {
                    Seq::empty()
                })
            }
            &&& !heeded ==> out.sent.len() == 0 && out.events.len() == 0
        }),
{
}

/// Whether every place in a group is there for somebody: a client is affiliated to a group
/// only where one of its subscribers is in it.
pub open spec fn places_are_earned(w: World) -> bool {
    forall|g: u32, x: Id| #[trigger]
        affiliated(w, g, x) ==> exists|i: u32| #[trigger]
            w.subscribers.dom().contains(i) && w.subscribers[i].client_id == x
                && w.subscribers[i].groups.contains(g)
}

/// A server that knows nothing has given no place in a group, and neither a message nor a
/// client that leaves makes one that nobody is there for.
pub proof fn places_stay_earned(
    w: World,
    p: RoutingPolicy,
    now: u64,
    client: Id,
    m: MessageModel,
    raw: Seq<u8>,
)
    requires
        places_are_earned(w),
    ensures
        places_are_earned(World::nothing()),
        places_are_earned(router::message_step(w, p, now, client, m, raw).world),
        places_are_earned(w.without_client(client)),
{
    let after = router::message_step(w, p, now, client, m, raw).world;
    assert forall|g: u32, x: Id| #[trigger] affiliated(after, g, x) implies exists|i: u32|
        #[trigger]
        after.subscribers.dom().contains(i) && after.subscribers[i].client_id == x
            && after.subscribers[i].groups.contains(g) by {
        match m {
            MessageModel::Subscriber { msg_type, issi, timestamp, fraction, groups } => {
                if msg_type == SUB_REGISTER || msg_type == SUB_REREGISTER {
                    registering_moves_the_subscriber(
                        w,
                        p,
                        now,
                        client,
                        msg_type,
                        issi,
                        timestamp,
                        fraction,
                        groups,
                        raw,
                    );
                    assert(after.group_clients[g].contains(x));
                    assert(after.subscribers.dom().contains(issi));
                    if affiliated(w, g, x) {
                        let i = choose|i: u32| #[trigger]
                            w.subscribers.dom().contains(i) && w.subscribers[i].client_id == x
                                && w.subscribers[i].groups.contains(g);
                        assert(after.subscribers.dom().contains(i));
                        if i == issi {
                            assert(w.subscribers[issi].groups.contains(g));
                            assert(after.subscribers[issi].groups.contains(g));
                        }
                    } else {
                        assert(x == client);
                        assert(after.subscribers[issi].groups.contains(g));
                    }
                } else if msg_type == SUB_AFFILIATE {
                    affiliating_joins_the_groups(
                        w,
                        p,
                        now,
                        client,
                        issi,
                        timestamp,
                        fraction,
                        groups,
                        raw,
                    );
                    assert(after.group_clients[g].contains(x));
                    if affiliated(w, g, x) {
                        let i = choose|i: u32| #[trigger]
                            w.subscribers.dom().contains(i) && w.subscribers[i].client_id == x
                                && w.subscribers[i].groups.contains(g);
                        assert(after.subscribers.dom().contains(i));
                    } else {
                        assert(after.subscribers.dom().contains(issi));
                        assert(after.subscribers[issi].groups.contains(g));
                    }
                } else if msg_type == SUB_DEREGISTER || msg_type == SUB_DEAFFILIATE {
                    leaving_keeps_the_others_places(
                        w,
                        p,
                        now,
                        client,
                        msg_type,
                        issi,
                        timestamp,
                        fraction,
                        groups,
                        raw,
                    );
                    assert(after.group_clients[g].contains(x));
                    assert(affiliated(w, g, x));
                    let i = choose|i: u32| #[trigger]
                        w.subscribers.dom().contains(i) && w.subscribers[i].client_id == x
                            && w.subscribers[i].groups.contains(g);
                    if i != issi {
                        assert(after.subscribers.dom().contains(i));
                    } else if w.subscribers[issi].client_id == client {
                        if after.subscribers.dom().contains(issi)
                            && after.subscribers[issi].groups.contains(g) {
                        } else {
                            let j = choose|j: u32|
                                j != issi && #[trigger] w.subscribers.dom().contains(j)
                                    && w.subscribers[j].client_id == client
                                    && w.subscribers[j].groups.contains(g);
                            assert(after.subscribers.dom().contains(j));
                        }
                    }
                } else {
                    assert(affiliated(w, g, x));
                }
            },
            _ => {
                assert(after.group_clients == w.group_clients);
                assert(after.subscribers == w.subscribers);
                assert(affiliated(w, g, x));
            },
        }
    }
    let left = w.without_client(client);
    assert forall|g: u32, x: Id| #[trigger] affiliated(left, g, x) implies exists|i: u32| #[trigger]
        left.subscribers.dom().contains(i) && left.subscribers[i].client_id == x
            && left.subscribers[i].groups.contains(g) by {
        assert(w.group_clients.dom().contains(g));
        assert(x != client && w.group_clients[g].contains(x));
        assert(affiliated(w, g, x));
        let i = choose|i: u32| #[trigger]
            w.subscribers.dom().contains(i) && w.subscribers[i].client_id == x
                && w.subscribers[i].groups.contains(g);
        assert(left.subscribers.dom().contains(i));
    }
}

/// What is no part of a call, a short-data message or a registration does nothing: errors,
/// service messages, and the states and frames that routing has no use for.
pub proof fn the_rest_is_ignored(
    w: World,
    p: RoutingPolicy,
    now: u64,
    client: Id,
    m: MessageModel,
    raw: Seq<u8>,
)
    requires
        match m {
            MessageModel::Error { .. } => true,
            MessageModel::Service { .. } => true,
            MessageModel::Frame { frame_type, .. } => frame_type != FRAME_TRAFFIC_CHANNEL
                && frame_type != FRAME_SDS_TRANSFER && frame_type != FRAME_SDS_REPORT,
            MessageModel::CallControl { call_state, payload, .. } => {
                &&& !(payload is GroupTransmission)
                &&& !(payload is ShortTransfer)
                &&& call_state != CALL_SETUP_REQUEST
                &&& call_state != CALL_SETUP_ACCEPT
                &&& call_state != CALL_SETUP_REJECT
                &&& call_state != CALL_ALERT
                &&& call_state != CALL_CONNECT_REQUEST
                &&& call_state != CALL_CONNECT_CONFIRM
                &&& call_state != CALL_SIMPLEX_GRANTED
                &&& call_state != CALL_SIMPLEX_IDLE
                &&& call_state != CALL_GROUP_IDLE
                &&& call_state != CALL_RELEASE
            },
            MessageModel::Subscriber { msg_type, .. } => msg_type != SUB_REGISTER && msg_type
                != SUB_REREGISTER && msg_type != SUB_DEREGISTER && msg_type != SUB_AFFILIATE
                && msg_type != SUB_DEAFFILIATE,
        },
    ensures
        router::message_step(w, p, now, client, m, raw).world == w,
        router::message_step(w, p, now, client, m, raw).out.sent.len() == 0,
        router::message_step(w, p, now, client, m, raw).out.events.len() == 0,
{
}

/// A packet that can be read is routed as what it says, by a server that has dropped what
/// has expired; one that cannot does nothing more than that. Routing loses no connection,
/// and the version of a connection never falls.
pub proof fn packets_are_routed_as_they_read(
    w: World,
    p: RoutingPolicy,
    now: u64,
    client: Id,
    raw: Seq<u8>,
)
    ensures
        ({
            let s = router::packet_step(w, p, now, client, raw);
            let read = protocol::parsed(raw, w.version_of(client));
            &&& read is Err ==> s.out.sent.len() == 0 && s.out.events.len() == 0
            &&& read matches Ok((m, seen)) ==> {
                let heard = router::message_step(
                    w.purged(now, p.session_ttl_seconds).promote(client, seen),
                    p,
                    now,
                    client,
                    m,
                    raw,
                );
                s == heard
            }
            &&& s.world.clients.dom() == w.clients.dom()
            &&& forall|x: Id| #[trigger]
                w.clients.dom().contains(x) ==> {
                    &&& s.world.clients[x].mode == w.clients[x].mode
                    &&& s.world.clients[x].username == w.clients[x].username
                    &&& s.world.clients[x].version.number() >= w.clients[x].version.number()
                    &&& x != client ==> s.world.clients[x] == w.clients[x]
                }
            &&& w.clients.dom().contains(client) && read is Ok
                ==> s.world.clients[client].version.number() >= (read->Ok_0).1.number()
        }),
{
    let s = router::packet_step(w, p, now, client, raw);
    assert(s.world.clients.dom() =~= w.clients.dom());
}

/// A short-data message whose body is a short location report tells where its sender is:
/// at exactly the place that was put into the report.
pub proof fn reported_places_are_told(
    w: World,
    p: RoutingPolicy,
    now: u64,
    client: Id,
    id: Id,
    length_bits: u16,
    data: Seq<u8>,
    raw: Seq<u8>,
    lat: int,
    lon: int,
)
    requires
        w.sds_routes.dom().contains(id),
        w.sds_routes[id].source_client == client,
        raw.len() >= 28,
        raw[20] == 0x0A,
        raw[21] < 0x40,
        -0x80_0000 <= lat < 0x80_0000,
        -0x100_0000 <= lon < 0x100_0000,
        lat != 0 || lon != 0,
        position_laws::short_lat_bits(raw.subrange(20, raw.len() as int)) == lat % 0x100_0000,
        position_laws::short_lon_bits(raw.subrange(20, raw.len() as int)) == lon % 0x200_0000,
    ensures
        router::message_step(
            w,
            p,
            now,
            client,
            frame(FRAME_SDS_TRANSFER, id, length_bits, data),
            raw,
        ).out.events == seq![
            EventModel::Position { issi: w.sds_routes[id].source_issi, lat, lon },
        ],
{
    let body = raw.subrange(20, raw.len() as int);
    position_laws::short_reports_give_back_the_place(body, lat, lon);
    position_laws::first_report_counts(body, 0);
    assert(body.subrange(0, body.len() as int) =~= body);
}

/// A short-data message without a location report is handed on as a text of its sender if
/// that can be read as a position, and tells nothing otherwise.
pub proof fn texts_are_told_where_they_read_as_places(
    w: World,
    p: RoutingPolicy,
    now: u64,
    client: Id,
    id: Id,
    length_bits: u16,
    data: Seq<u8>,
    raw: Seq<u8>,
)
    requires
        w.sds_routes.dom().contains(id),
        w.sds_routes[id].source_client == client,
        raw.len() >= 20,
        position::report_in(raw.subrange(20, raw.len() as int)) is None,
    ensures
        ({
            let text = position::ascii_in(raw.subrange(20, raw.len() as int));
            let events = router::message_step(
                w,
                p,
                now,
                client,
                frame(FRAME_SDS_TRANSFER, id, length_bits, data),
                raw,
            ).out.events;
            &&& position::readings(text).len() > 0 ==> events == seq![
                EventModel::Beacon { issi: w.sds_routes[id].source_issi, text },
            ]
            &&& position::readings(text).len() == 0 ==> events.len() == 0
        }),
{
}

/// A call that the server ends itself is told to all who took part in it and are
/// connected, as the end of a group call or of a private one; it is forgotten and its
/// floor is free, and nothing else changes.
pub proof fn calls_ended_by_the_server_are_told(w: World, id: Id)
    ensures
        ({
            let s = router::force_end_step(w, id);
            let c = w.calls[id];
            &&& w.calls.dom().contains(id) ==> {
                &&& s.out.sent.len() == 1
                &&& c.kind == CallKind::Group ==> s.out.sent[0].packet
                    == protocol::call_cause_packet(CALL_GROUP_IDLE, id, 0)
                &&& c.kind == CallKind::Private ==> s.out.sent[0].packet
                    == protocol::call_cause_packet(CALL_RELEASE, id, 0)
                &&& forall|x: Id| #[trigger]
                    s.out.sent[0].to.contains(x) <==> w.clients.dom().contains(x) && (c.owner == x
                        || c.peers.contains(x))
                &&& s.out.events == seq![EventModel::CallEnded { id }]
                &&& s.world.calls == w.calls.remove(id)
                &&& forall|g: u32| #[trigger]
                    s.world.group_floor.dom().contains(g) <==> w.group_floor.dom().contains(g) && !(
                    c.kind == CallKind::Group && g == c.destination && w.group_floor[g] == id)
                &&& forall|g: u32| #[trigger]
                    s.world.group_floor.dom().contains(g) ==> s.world.group_floor[g]
                        == w.group_floor[g]
                &&& s.world == (World {
                    calls: s.world.calls,
                    group_floor: s.world.group_floor,
                    ..w
                })
            }
            &&& !w.calls.dom().contains(id) ==> s.world == w && s.out.sent.len() == 0
                && s.out.events.len() == 0
        }),
{
}

/// A set-up request that could not be read in full still names the two subscribers, by its
/// first eight bytes: it goes to the same client as one that could, or is offered to the
/// SIP side by the called subscriber's own number. A shorter one does nothing.
pub proof fn bare_set_up_requests_are_routed_alike(
    w: World,
    p: RoutingPolicy,
    now: u64,
    client: Id,
    id: Id,
    body: Seq<u8>,
    priority: u8,
    raw: Seq<u8>,
)
    ensures
        ({
            let m = control(CALL_SETUP_REQUEST, id, PayloadModel::Raw(body));
            let s = router::message_step(w, p, now, client, m, raw);
            let source = (body[0] + 0x100 * body[1] + 0x1_0000 * body[2] + 0x100_0000
                * body[3]) as u32;
            let destination = (body[4] + 0x100 * body[5] + 0x1_0000 * body[6] + 0x100_0000
                * body[7]) as u32;
            let full = setup(id, source, destination, Seq::empty(), priority, None);
            &&& body.len() >= 8 ==> s == router::message_step(w, p, now, client, full, raw)
            &&& body.len() < 8 ==> s.world == w && s.out.sent.len() == 0 && s.out.events.len() == 0
        }),
{
}

} // verus!

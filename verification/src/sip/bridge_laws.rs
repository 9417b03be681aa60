//! What the SIP side promises, told over routes, tables and messages: which route a call
//! takes, who is rung, who is told, and where the voice goes.
use crate::config::{EndpointModel, RouteModel, TrunkModel};
use crate::ids;
use crate::ids::Id;
use crate::protocol;
use crate::protocol::{
    ConnVersion, MessageModel, PayloadModel, CALL_CONNECT_CONFIRM, CALL_CONNECT_REQUEST,
    CALL_GROUP_IDLE, CALL_RELEASE, CALL_SETUP_REQUEST, FRAME_TRAFFIC_CHANNEL,
};
use crate::router;
use crate::router::RoutingPolicy;
use crate::sip::bridge;
use crate::sip::bridge::{BrewCallLink, ByeModel, Farewell, LegRecord, TargetModel};
use crate::sip::message;
use crate::sip::message::{MethodModel, SipModel, StartModel};
use crate::sip::message_laws;
use crate::sip::routing;
use crate::sip::routing::{LegModel, OriginModel};
use crate::state::{CallKind, ClientMode, World};
use crate::text;
use vstd::prelude::*;

verus! {

/// Whether a route is meant for a call: it is enabled, leads somewhere, takes calls from
/// anywhere or from where this one comes from, and its pattern is what was dialled, or a
/// beginning of it with a star behind.
pub open spec fn meant_for(route: RouteModel, origin: OriginModel, dialled: Seq<char>) -> bool {
    &&& route.enabled
    &&& route.to is Some
    &&& match route.from {
        None => true,
        Some(EndpointModel::SipExtension { user }) => origin == OriginModel::SipExtension(user),
        Some(EndpointModel::SipTrunk { trunk, .. }) => origin == OriginModel::SipTrunk(trunk),
        Some(EndpointModel::BrewPrivate { issi }) => origin == OriginModel::BrewPrivate(issi),
        Some(EndpointModel::BrewGroup { gssi }) => origin == OriginModel::BrewGroup(gssi),
    }
    &&& if route.match_pattern.len() > 0 && route.match_pattern.last() == '*' {
        exists|rest: Seq<char>| dialled == #[trigger] (route.match_pattern.drop_last() + rest)
    } else {
        dialled == route.match_pattern
    }
}

proof fn applies_as_meant(route: RouteModel, origin: OriginModel, dialled: Seq<char>)
    ensures
        routing::applies(route, origin, dialled) == meant_for(route, origin, dialled),
{
    let p = route.match_pattern;
    if p.len() > 0 && p.last() == '*' {
        let stem = p.drop_last();
        if text::starts_with(dialled, stem) {
            let rest = dialled.subrange(stem.len() as int, dialled.len() as int);
            assert(dialled =~= stem + rest);
        }
        if exists|rest: Seq<char>| dialled == #[trigger] (stem + rest) {
            let rest = choose|rest: Seq<char>| dialled == #[trigger] (stem + rest);
            assert((stem + rest).subrange(0, stem.len() as int) =~= stem);
        }
    }
}

/// A call takes the first route that is meant for it, and none if no route is.
pub proof fn calls_take_the_first_route_meant_for_them(
    routes: Seq<RouteModel>,
    origin: OriginModel,
    dialled: Seq<char>,
)
    ensures
        match routing::resolution(routes, origin, dialled) {
            Some((_, route)) => exists|k: int|
                0 <= k < routes.len() && route == routes[k] && meant_for(
                    #[trigger] routes[k],
                    origin,
                    dialled,
                ) && forall|j: int|
                    0 <= j < k ==> !meant_for(#[trigger] routes[j], origin, dialled),
            None => forall|k: int|
                0 <= k < routes.len() ==> !meant_for(#[trigger] routes[k], origin, dialled),
        },
{
    routing::first_matching_route_decides(routes, origin, dialled, 0);
    let k = routing::first_route(routes, origin, dialled, 0);
    assert forall|j: int| 0 <= j < routes.len() implies routing::applies(
        routes[j],
        origin,
        dialled,
    ) == meant_for(#[trigger] routes[j], origin, dialled) by {
        applies_as_meant(routes[j], origin, dialled);
    }
    if k < routes.len() {
        assert(meant_for(routes[k], origin, dialled));
    }
}

/// A call goes where its route leads. A trunk is called with the number that the route
/// names; where it names none, with what was dialled, without the route's prefix if it
/// starts with that.
pub proof fn calls_go_where_the_route_leads(
    routes: Seq<RouteModel>,
    origin: OriginModel,
    dialled: Seq<char>,
    rest: Seq<char>,
)
    requires
        routing::resolution(routes, origin, dialled) is Some,
    ensures
        ({
            let (leg, route) = routing::resolution(routes, origin, dialled)->0;
            match route.to {
                Some(EndpointModel::SipExtension { user }) => leg == LegModel::SipExtension {
                    aor: user,
                },
                Some(EndpointModel::BrewPrivate { issi }) => leg == LegModel::BrewPrivate { issi },
                Some(EndpointModel::BrewGroup { gssi }) => leg == LegModel::BrewGroup { gssi },
                Some(EndpointModel::SipTrunk { trunk, number }) => {
                    &&& leg is SipTrunk
                    &&& leg->trunk == trunk
                    &&& number.len() > 0 ==> leg->number == number
                    &&& number.len() == 0 && dialled == route.strip_prefix + rest ==> leg->number
                        == rest
                    &&& number.len() == 0 && (forall|r: Seq<char>|
                        dialled != #[trigger] (route.strip_prefix + r)) ==> leg->number == dialled
                },
                None => false,
            }
        }),
{
    calls_take_the_first_route_meant_for_them(routes, origin, dialled);
    let (leg, route) = routing::resolution(routes, origin, dialled)->0;
    let p = route.strip_prefix;
    if dialled == p + rest {
        assert(dialled.subrange(0, p.len() as int) =~= p);
        assert(dialled.subrange(p.len() as int, dialled.len() as int) =~= rest);
    }
    if text::starts_with(dialled, p) {
        let r = dialled.subrange(p.len() as int, dialled.len() as int);
        assert(dialled =~= p + r);
    }
}

/// A Brew call leaves toward an extension or a trunk that is known, and the address of a
/// number at a trunk names the host without its port. A route to the Brew side, or to a
/// trunk that is not known, leads nowhere.
pub proof fn brew_calls_leave_by_known_ways(
    routes: Seq<RouteModel>,
    trunks: Map<Seq<char>, TrunkModel>,
    origin: OriginModel,
    dialled: Seq<char>,
    host: Seq<char>,
    port: Seq<char>,
)
    requires
        !host.contains(':'),
    ensures
        ({
            let target = bridge::outbound_target_of(routes, trunks, origin, dialled);
            match routing::resolution(routes, origin, dialled) {
                Some((LegModel::SipExtension { aor }, _)) => target == Some(
                    TargetModel::Extension { aor },
                ),
                Some((LegModel::SipTrunk { trunk, number }, _)) => {
                    &&& target is Some <==> trunks.dom().contains(trunk)
                    &&& target matches Some(t) ==> {
                        &&& t is Trunk
                        &&& t->trunk == trunk
                        &&& t->remote_host == trunks[trunk].remote_host
                        &&& trunks[trunk].remote_host == host || trunks[trunk].remote_host == host
                            + seq![':'] + port ==> t->uri == "sip:"@ + number + "@"@ + host
                    }
                },
                _ => target is None,
            }
        }),
{
    match routing::resolution(routes, origin, dialled) {
        Some((LegModel::SipTrunk { trunk, number }, _)) => {
            let h = trunks[trunk].remote_host;
            if h == host {
                colon_is_found(h, host.len() as int, 0);
                assert(h.subrange(0, host.len() as int) =~= host);
            }
            if h == host + seq![':'] + port {
                assert(h[host.len() as int] == ':');
                assert forall|k: int| 0 <= k < host.len() implies #[trigger] h[k] != ':' by {
                    assert(h[k] == host[k]);
                    assert(host.contains(host[k]));
                }
                colon_is_found(h, host.len() as int, 0);
                assert(h.subrange(0, host.len() as int) =~= host);
            }
        },
        _ => {},
    }
}

proof fn colon_is_found(h: Seq<char>, k: int, from: int)
    requires
        0 <= from <= k <= h.len(),
        forall|i: int| 0 <= i < k ==> #[trigger] h[i] != ':',
        k < h.len() ==> h[k] == ':',
    ensures
        text::find_char(h, ':', from) == k,
    decreases k - from,
{
    if from < k {
        assert(h[from] != ':');
        colon_is_found(h, k, from + 1);
    }
}

/// The voice payload of a call is the first of the two kinds of G.711 that is offered, and
/// the first kind where neither is.
pub proof fn first_g711_offer_is_taken(before: Seq<u8>, kind: u8, after: Seq<u8>)
    requires
        forall|i: int| 0 <= i < before.len() ==> #[trigger] before[i] != 0 && before[i] != 8,
        kind == 0 || kind == 8,
    ensures
        bridge::first_g711(before + seq![kind] + after) == kind,
        bridge::first_g711(before) == 0,
    decreases before.len(),
{
    let all = before + seq![kind] + after;
    if before.len() > 0 {
        assert(all[0] == before[0]);
        assert(all.drop_first() =~= before.drop_first() + seq![kind] + after);
        assert forall|i: int| 0 <= i < before.drop_first().len() implies #[trigger] before.drop_first()[i]
            != 0 && before.drop_first()[i] != 8 by {
            assert(before.drop_first()[i] == before[i + 1]);
        }
        first_g711_offer_is_taken(before.drop_first(), kind, after);
    } else {
        assert(all[0] == kind);
    }
}

/// A SIP call to a subscriber rings exactly the client that it is bridged to. A virtual
/// client stands in for the caller: it is connected as a terminal that speaks version 1,
/// and it owns a private call to that client. Nothing else changes.
pub proof fn bridged_private_calls_ring(
    w: World,
    target: Id,
    issi: u32,
    call: Id,
    virtual_client: Id,
    now_ms: u64,
    now: u64,
)
    requires
        target != virtual_client,
    ensures
        ({
            let s = bridge::private_bridge_step(w, target, issi, call, virtual_client, now_ms, now);
            &&& s.out.sent.len() == 1
            &&& s.out.sent[0].packet == protocol::circular_call_packet(
                CALL_SETUP_REQUEST,
                call,
                0,
                issi,
                0,
            )
            &&& forall|x: Id| #[trigger]
                s.out.sent[0].to.contains(x) <==> x == target && w.clients.dom().contains(target)
            &&& s.out.events.len() == 0
            &&& virtual_client_joins(w, s.world, virtual_client, now_ms)
            &&& call_is_entered(w, s.world, call)
            &&& s.world.calls[call].kind == CallKind::Private
            &&& s.world.calls[call].owner == virtual_client
            &&& s.world.calls[call].destination == issi
            &&& s.world.calls[call].started_at == now
            &&& forall|x: Id| #[trigger] s.world.calls[call].peers.contains(x) <==> x == target
            &&& s.world == (World { clients: s.world.clients, calls: s.world.calls, ..w })
        }),
{
}

/// Whether a virtual client is all that is new among the connections.
pub open spec fn virtual_client_joins(w: World, after: World, v: Id, now_ms: u64) -> bool {
    &&& forall|x: Id| #[trigger]
        after.clients.dom().contains(x) <==> w.clients.dom().contains(x) || x == v
    &&& forall|x: Id|
        x != v && #[trigger] w.clients.dom().contains(x) ==> after.clients[x] == w.clients[x]
    &&& after.clients[v].mode == ClientMode::Terminal
    &&& after.clients[v].version == ConnVersion::V1
    &&& after.clients[v].connected_at_ms == now_ms
}

/// Whether a call is all that is new among the calls.
pub open spec fn call_is_entered(w: World, after: World, call: Id) -> bool {
    &&& forall|c: Id| #[trigger]
        after.calls.dom().contains(c) <==> w.calls.dom().contains(c) || c == call
    &&& forall|c: Id|
        c != call && #[trigger] w.calls.dom().contains(c) ==> after.calls[c] == w.calls[c]
}

/// A SIP call to a group reaches exactly the connected clients affiliated to it. A virtual
/// client stands in for the caller: it is affiliated too, owns the group call, whose peers
/// are those clients, and the call holds the floor. Nothing else changes.
pub proof fn bridged_group_calls_reach_the_group(
    w: World,
    gssi: u32,
    call: Id,
    virtual_client: Id,
    now_ms: u64,
    now: u64,
)
    ensures
        ({
            let s = bridge::group_bridge_step(w, gssi, call, virtual_client, now_ms, now);
            &&& s.out.sent.len() == 1
            &&& s.out.sent[0].packet == protocol::group_tx_packet(call, 0, gssi, 0)
            &&& forall|x: Id| #[trigger]
                s.out.sent[0].to.contains(x) <==> w.clients.dom().contains(x) && x
                    != virtual_client && w.group_clients.dom().contains(gssi)
                    && w.group_clients[gssi].contains(x)
            &&& virtual_client_joins(w, s.world, virtual_client, now_ms)
            &&& call_is_entered(w, s.world, call)
            &&& s.world.calls[call].kind == CallKind::Group
            &&& s.world.calls[call].owner == virtual_client
            &&& s.world.calls[call].destination == gssi
            &&& s.world.calls[call].started_at == now
            &&& forall|x: Id| #[trigger]
                s.world.calls[call].peers.contains(x) <==> x != virtual_client
                    && w.group_clients.dom().contains(gssi) && w.group_clients[gssi].contains(x)
            &&& s.world.group_floor == w.group_floor.insert(gssi, call)
            &&& forall|g: u32| #[trigger]
                s.world.group_clients.dom().contains(g) <==> w.group_clients.dom().contains(g) || g
                    == gssi
            &&& forall|g: u32|
                g != gssi && #[trigger] w.group_clients.dom().contains(g)
                    ==> s.world.group_clients[g] == w.group_clients[g]
            &&& forall|x: Id| #[trigger]
                s.world.group_clients[gssi].contains(x) <==> x == virtual_client || (
                w.group_clients.dom().contains(gssi) && w.group_clients[gssi].contains(x))
            &&& s.world.subscribers == w.subscribers
            &&& s.world.sds_routes == w.sds_routes
        }),
{
}

/// The end of a bridged call is told to exactly the connected clients that took part in
/// it, other than the virtual one, as the end of a group call or of a private one, if the
/// call is still there. The virtual client and the call go; the others stay as they were.
pub proof fn bridged_calls_end_for_all(w: World, leg: LegRecord)
    ensures
        ({
            let s = bridge::teardown_step(w, leg);
            let c = w.calls[leg.brew_call_id];
            &&& w.calls.dom().contains(leg.brew_call_id) ==> {
                &&& s.out.sent.len() == 1
                &&& c.kind == CallKind::Group ==> s.out.sent[0].packet
                    == protocol::call_cause_packet(CALL_GROUP_IDLE, leg.brew_call_id, 0)
                &&& c.kind == CallKind::Private ==> s.out.sent[0].packet
                    == protocol::call_cause_packet(CALL_RELEASE, leg.brew_call_id, 0)
                &&& forall|x: Id| #[trigger]
                    s.out.sent[0].to.contains(x) <==> w.clients.dom().contains(x) && x
                        != leg.virtual_client && (c.owner == x || c.peers.contains(x))
            }
            &&& !w.calls.dom().contains(leg.brew_call_id) ==> s.out.sent.len() == 0
            &&& s.out.events.len() == 0
            &&& s.world.clients == w.clients.remove(leg.virtual_client)
            &&& s.world.calls == w.calls.remove(leg.brew_call_id)
            &&& s.world.group_clients.dom() == w.group_clients.dom()
            &&& forall|g: u32, x: Id|
                w.group_clients.dom().contains(g) ==> (
                #[trigger] s.world.group_clients[g].contains(x) <==> w.group_clients[g].contains(x)
                    && !(leg.group == Some(g) && x == leg.virtual_client))
            &&& forall|g: u32| #[trigger]
                s.world.group_floor.dom().contains(g) <==> w.group_floor.dom().contains(g) && !(
                leg.group == Some(g) && w.group_floor[g] == leg.brew_call_id)
            &&& forall|g: u32| #[trigger]
                s.world.group_floor.dom().contains(g) ==> s.world.group_floor[g] == w.group_floor[g]
            &&& s.world.subscribers == w.subscribers
            &&& s.world.sds_routes == w.sds_routes
        }),
{
    let s = bridge::teardown_step(w, leg);
    assert(s.world.group_clients.dom() =~= w.group_clients.dom());
}

/// A Brew call that leaves toward SIP runs between the calling client and a virtual one:
/// the voice of each goes to the other alone.
pub proof fn outbound_voice_flows_both_ways(
    w: World,
    p: RoutingPolicy,
    link: BrewCallLink,
    virtual_client: Id,
    now_ms: u64,
    now: u64,
    length_bits: u16,
    data: Seq<u8>,
    raw: Seq<u8>,
)
    requires
        link.client != virtual_client,
        w.clients.dom().contains(link.client),
    ensures
        ({
            let after = bridge::outbound_world(w, link, virtual_client, now_ms, now);
            let m = MessageModel::Frame {
                frame_type: FRAME_TRAFFIC_CHANNEL,
                identifier: link.call_id,
                length_bits,
                data,
            };
            let spoken = router::message_step(after, p, now, link.client, m, raw).out.sent;
            let heard = router::message_step(after, p, now, virtual_client, m, raw).out.sent;
            &&& virtual_client_joins(w, after, virtual_client, now_ms)
            &&& call_is_entered(w, after, link.call_id)
            &&& after.calls[link.call_id].started_at == now
            &&& spoken.len() == 1
            &&& spoken[0].to == Set::<Id>::empty().insert(virtual_client)
            &&& heard.len() == 1
            &&& heard[0].to == Set::<Id>::empty().insert(link.client)
        }),
{
    let after = bridge::outbound_world(w, link, virtual_client, now_ms, now);
    let m = MessageModel::Frame {
        frame_type: FRAME_TRAFFIC_CHANNEL,
        identifier: link.call_id,
        length_bits,
        data,
    };
    let spoken = router::message_step(after, p, now, link.client, m, raw).out.sent;
    let heard = router::message_step(after, p, now, virtual_client, m, raw).out.sent;
    assert(spoken[0].to =~= Set::<Id>::empty().insert(virtual_client));
    assert(heard[0].to =~= Set::<Id>::empty().insert(link.client));
}

/// When the SIP side answers a Brew call, exactly the client that placed it is told, as
/// long as the call is there.
pub proof fn answers_reach_the_caller(w: World, call: Id)
    ensures
        ({
            let out = bridge::answered_out(w, call);
            &&& w.calls.dom().contains(call) ==> {
                &&& out.sent.len() == 1
                &&& out.sent[0].packet == protocol::circular_call_packet(
                    CALL_CONNECT_REQUEST,
                    call,
                    w.calls[call].source_issi,
                    w.calls[call].destination,
                    w.calls[call].priority,
                )
                &&& forall|x: Id| #[trigger]
                    out.sent[0].to.contains(x) <==> w.clients.dom().contains(x) && x
                        == w.calls[call].owner
            }
            &&& !w.calls.dom().contains(call) ==> out.sent.len() == 0
            &&& out.events.len() == 0
        }),
{
}

/// A virtual client that owns a call confirms the answer of the called client to exactly
/// the connected peers of the call, and stays silent on anything else.
pub proof fn answers_are_confirmed(
    w: World,
    virtual_client: Id,
    call_state: u8,
    id: Id,
    payload: PayloadModel,
    seen: ConnVersion,
    raw: Seq<u8>,
)
    requires
        protocol::parsed(raw, ConnVersion::V1) == Ok::<_, protocol::ParseError>(
            (MessageModel::CallControl { call_state, identifier: id, payload }, seen),
        ),
    ensures
        ({
            let out = bridge::confirm_out(w, virtual_client, raw);
            let asked = call_state == CALL_CONNECT_REQUEST && w.calls.dom().contains(id)
                && w.calls[id].owner == virtual_client;
            &&& asked ==> {
                &&& out.sent.len() == 1
                &&& out.sent[0].packet == protocol::call_head(CALL_CONNECT_CONFIRM, id)
                &&& forall|x: Id| #[trigger]
                    out.sent[0].to.contains(x) <==> w.clients.dom().contains(x)
                        && w.calls[id].peers.contains(x)
            }
            &&& !asked ==> out.sent.len() == 0
            &&& out.events.len() == 0
        }),
{
}

/// What is no call control needs no confirmation.
pub proof fn the_rest_is_not_confirmed(w: World, virtual_client: Id, raw: Seq<u8>)
    requires
        match protocol::parsed(raw, ConnVersion::V1) {
            Ok((m, _)) => !(m is CallControl),
            Err(_) => true,
        },
    ensures
        bridge::confirm_out(w, virtual_client, raw).sent.len() == 0,
        bridge::confirm_out(w, virtual_client, raw).events.len() == 0,
{
}

/// A bridged call has lasted too long when its Brew call is there, there is a limit, and
/// more seconds than the limit have passed since the call started.
pub proof fn overdue_legs_are_told_by_their_call(w: World, leg: LegRecord, now: u64, limit: u64)
    ensures
        bridge::leg_is_overdue(w, leg, now, limit) <==> w.calls.dom().contains(leg.brew_call_id)
            && limit > 0 && now > w.calls[leg.brew_call_id].started_at + limit * 1_000_000_000,
{
    assert(limit > 0 ==> limit * 1_000_000_000 > 0);
}

/// A group counts as empty exactly when no client is affiliated to it.
pub proof fn empty_groups_have_no_members(w: World, gssi: u32)
    ensures
        bridge::unaffiliated(w, gssi) <==> forall|x: Id|
            !(w.group_clients.dom().contains(gssi) && #[trigger] w.group_clients[gssi].contains(x)),
{
    if forall|x: Id|
        !(w.group_clients.dom().contains(gssi) && #[trigger] w.group_clients[gssi].contains(x)) {
        if w.group_clients.dom().contains(gssi) {
            assert(w.group_clients[gssi] =~= Set::<Id>::empty());
        }
    }
}

/// The dialog of an accepted call is ended the other way round: what was the callee's
/// address is the sender's, and the caller's the recipient's. It is ended where the call
/// came from, toward the contact that the caller gave, or its address without one.
pub proof fn dialogs_end_the_other_way_round(
    ok: SipModel,
    req: SipModel,
    caller: Seq<char>,
    to: Seq<char>,
    from: Seq<char>,
)
    requires
        ok.header("To"@) == Some(to),
        ok.header("From"@) == Some(from),
    ensures
        bridge::dialog_of(ok, req, caller) matches Some(d) && d.from == to && d.to == from
            && d.target_addr == caller && (req.header("Contact"@) matches Some(c)
            ==> d.request_uri == message::address_uri(c)) && (req.header("Contact"@) is None
            ==> d.request_uri == "sip:"@ + caller),
{
    reveal_strlit("To");
    reveal_strlit("to");
    reveal_strlit("From");
    reveal_strlit("from");
    reveal_strlit("Contact");
    reveal_strlit("contact");
    assert(text::lower_text("To"@) =~= text::lower_text("to"@));
    assert(text::lower_text("From"@) =~= text::lower_text("from"@));
    assert(text::lower_text("Contact"@) =~= text::lower_text("contact"@));
}

proof fn header_names_differ()
    ensures
        ({
            let via = text::lower_text("Via"@);
            let max = text::lower_text("Max-Forwards"@);
            let from = text::lower_text("From"@);
            let to = text::lower_text("To"@);
            let call = text::lower_text("Call-ID"@);
            let cseq = text::lower_text("CSeq"@);
            let contact = text::lower_text("Contact"@);
            let kind = text::lower_text("Content-Type"@);
            &&& via != max && via != from && via != to && via != call && via != cseq && via
                != contact && via != kind
            &&& max != from && max != to && max != call && max != cseq && max != contact && max
                != kind
            &&& from != to && from != call && from != cseq && from != contact && from != kind
            &&& to != call && to != cseq && to != contact && to != kind
            &&& call != cseq && call != contact && call != kind
            &&& cseq != contact && cseq != kind
            &&& contact != kind
        }),
{
    reveal_strlit("Via");
    reveal_strlit("Max-Forwards");
    reveal_strlit("From");
    reveal_strlit("To");
    reveal_strlit("Call-ID");
    reveal_strlit("CSeq");
    reveal_strlit("Contact");
    reveal_strlit("Content-Type");
    assert(text::lower_text("Via"@).len() == 3);
    assert(text::lower_text("Max-Forwards"@).len() == 12);
    assert(text::lower_text("From"@).len() == 4);
    assert(text::lower_text("To"@).len() == 2);
    assert(text::lower_text("Call-ID"@).len() == 7);
    assert(text::lower_text("CSeq"@).len() == 4);
    assert(text::lower_text("Contact"@).len() == 7);
    assert(text::lower_text("Content-Type"@).len() == 12);
    assert(text::lower_text("Max-Forwards"@)[0] == 'm');
    assert(text::lower_text("Content-Type"@)[0] == 'c');
    assert(text::lower_text("From"@)[0] == 'f');
    assert(text::lower_text("CSeq"@)[0] == 'c');
    assert(text::lower_text("Call-ID"@)[1] == 'a');
    assert(text::lower_text("Contact"@)[1] == 'o');
}

/// The request that ends a dialog names it: it goes to the other side's contact, from and
/// to the two addresses of the dialog, under its Call-ID.
pub proof fn farewells_name_their_dialog(call_id: Seq<char>, d: ByeModel, host: Seq<char>, branch: Id)
    ensures
        ({
            let m = bridge::bye_model(call_id, d, host, branch);
            &&& m.start == StartModel::Request { method: MethodModel::Bye, uri: d.request_uri }
            &&& m.header("From"@) == Some(d.from)
            &&& m.header("To"@) == Some(d.to)
            &&& m.header("Call-ID"@) == Some(call_id)
            &&& m.header("Via"@) is Some
            &&& m.header("CSeq"@) is Some
            &&& m.body.len() == 0
        }),
{
    header_names_differ();
    let m = bridge::bye_model(call_id, d, host, branch);
    let e = SipModel { start: m.start, headers: Seq::empty(), body: Seq::empty() };
    let m1 = e.with_header("Via"@, bridge::via_text(host, branch));
    let m2 = m1.with_header("Max-Forwards"@, "70"@);
    let m3 = m2.with_header("From"@, d.from);
    let m4 = m3.with_header("To"@, d.to);
    let m5 = m4.with_header("Call-ID"@, call_id);
    assert(m == m5.with_header("CSeq"@, "2 BYE"@));
    chain(e, "Via"@, bridge::via_text(host, branch), "Max-Forwards"@, "70"@, "From"@, d.from);
    chain(m3, "To"@, d.to, "Call-ID"@, call_id, "CSeq"@, "2 BYE"@);
}

/// What three more headers leave of a message: the others as they were, and each of the
/// three as given where it was not there before.
proof fn chain(
    m: SipModel,
    a: Seq<char>,
    x: Seq<char>,
    b: Seq<char>,
    y: Seq<char>,
    c: Seq<char>,
    z: Seq<char>,
)
    requires
        text::lower_text(a) != text::lower_text(b),
        text::lower_text(a) != text::lower_text(c),
        text::lower_text(b) != text::lower_text(c),
    ensures
        ({
            let n = m.with_header(a, x).with_header(b, y).with_header(c, z);
            &&& m.header(a) is None ==> n.header(a) == Some(x)
            &&& m.header(b) is None ==> n.header(b) == Some(y)
            &&& m.header(c) is None ==> n.header(c) == Some(z)
            &&& m.header(a) is Some ==> n.header(a) == m.header(a)
            &&& m.header(b) is Some ==> n.header(b) == m.header(b)
            &&& m.header(c) is Some ==> n.header(c) == m.header(c)
            &&& forall|o: Seq<char>|
                text::lower_text(o) != text::lower_text(a) && text::lower_text(o)
                    != text::lower_text(b) && text::lower_text(o) != text::lower_text(c)
                    ==> #[trigger] n.header(o) == m.header(o)
        }),
{
    let m1 = m.with_header(a, x);
    let m2 = m1.with_header(b, y);
    let n = m2.with_header(c, z);
    assert forall|o: Seq<char>|
        text::lower_text(o) != text::lower_text(a) && text::lower_text(o) != text::lower_text(b)
            && text::lower_text(o) != text::lower_text(c) implies #[trigger] n.header(o)
        == m.header(o) by {
        message_laws::added_headers_come_last(m, a, x, o);
        message_laws::added_headers_come_last(m1, b, y, o);
        message_laws::added_headers_come_last(m2, c, z, o);
    }
    message_laws::added_headers_come_last(m, a, x, b);
    message_laws::added_headers_come_last(m, a, x, c);
    message_laws::added_headers_come_last(m1, b, y, a);
    message_laws::added_headers_come_last(m1, b, y, c);
    message_laws::added_headers_come_last(m2, c, z, a);
    message_laws::added_headers_come_last(m2, c, z, b);
}

/// The call that is placed for a Brew subscriber is an INVITE to the given address, from
/// the subscriber's number at this host, with the offer as its body.
pub proof fn invites_name_their_parties(
    call_id: Seq<char>,
    issi: u32,
    uri: Seq<char>,
    host: Seq<char>,
    tag: Id,
    branch: Id,
    sdp: Seq<u8>,
)
    ensures
        ({
            let m = bridge::invite_model(call_id, issi, uri, host, tag, branch, sdp);
            &&& m.start == StartModel::Request { method: MethodModel::Invite, uri }
            &&& m.header("Call-ID"@) == Some(call_id)
            &&& m.header("From"@) == Some(
                "<sip:"@ + text::decimal(issi as nat) + "@"@ + host + ">"@ + ";tag="@
                    + ids::hex_text(ids::id_bytes(tag)),
            )
            &&& m.header("To"@) == Some("<"@ + message::address_uri(uri) + ">"@)
            &&& m.header("Contact"@) == Some(
                "<sip:"@ + text::decimal(issi as nat) + "@"@ + host + ">"@,
            )
            &&& m.header("CSeq"@) == Some("1 INVITE"@)
            &&& m.header("Content-Type"@) == Some("application/sdp"@)
            &&& m.body == sdp
        }),
{
    header_names_differ();
    let m = bridge::invite_model(call_id, issi, uri, host, tag, branch, sdp);
    let e = SipModel { start: m.start, headers: Seq::empty(), body: Seq::empty() };
    let from = bridge::invite_from(issi, host, tag);
    let contact = bridge::address_text(text::decimal(issi as nat), host);
    let m3 = e.with_header("Via"@, bridge::via_text(host, branch)).with_header(
        "Max-Forwards"@,
        "70"@,
    ).with_header("From"@, from);
    let m6 = m3.with_header("To"@, bridge::invite_to(uri)).with_header(
        "Call-ID"@,
        call_id,
    ).with_header("CSeq"@, "1 INVITE"@);
    let m8 = m6.with_header("Contact"@, contact).with_header("Content-Type"@, "application/sdp"@);
    assert(m == SipModel { body: sdp, ..m8 });
    chain(e, "Via"@, bridge::via_text(host, branch), "Max-Forwards"@, "70"@, "From"@, from);
    chain(m3, "To"@, bridge::invite_to(uri), "Call-ID"@, call_id, "CSeq"@, "1 INVITE"@);
    chain(m6, "Contact"@, contact, "Content-Type"@, "application/sdp"@, "Via"@, Seq::empty());
    let m7 = m6.with_header("Contact"@, contact);
    message_laws::added_headers_come_last(m6, "Contact"@, contact, "Content-Type"@);
    message_laws::added_headers_come_last(m6, "Contact"@, contact, "Call-ID"@);
    message_laws::added_headers_come_last(m6, "Contact"@, contact, "From"@);
    message_laws::added_headers_come_last(m6, "Contact"@, contact, "To"@);
    message_laws::added_headers_come_last(m6, "Contact"@, contact, "CSeq"@);
    message_laws::added_headers_come_last(m7, "Content-Type"@, "application/sdp"@, "Contact"@);
    message_laws::added_headers_come_last(m7, "Content-Type"@, "application/sdp"@, "Call-ID"@);
    message_laws::added_headers_come_last(m7, "Content-Type"@, "application/sdp"@, "From"@);
    message_laws::added_headers_come_last(m7, "Content-Type"@, "application/sdp"@, "To"@);
    message_laws::added_headers_come_last(m7, "Content-Type"@, "application/sdp"@, "CSeq"@);
}

/// The response that accepts a call keeps what it had and carries the media answer.
pub proof fn acceptances_carry_the_answer(base: SipModel, host: Seq<char>, sdp: Seq<u8>)
    requires
        base.header("Contact"@) is None,
        base.header("Content-Type"@) is None,
    ensures
        ({
            let m = bridge::answer_model(base, host, sdp);
            &&& m.start == base.start
            &&& m.body == sdp
            &&& m.header("Contact"@) == Some("<sip:"@ + "brew"@ + "@"@ + host + ">"@)
            &&& m.header("Content-Type"@) == Some("application/sdp"@)
            &&& m.header("Call-ID"@) == base.header("Call-ID"@)
            &&& m.header("From"@) == base.header("From"@)
            &&& m.header("To"@) == base.header("To"@)
        }),
{
    header_names_differ();
    let contact = bridge::address_text("brew"@, host);
    let m1 = base.with_header("Contact"@, contact);
    message_laws::added_headers_come_last(base, "Contact"@, contact, "Content-Type"@);
    message_laws::added_headers_come_last(base, "Contact"@, contact, "Call-ID"@);
    message_laws::added_headers_come_last(base, "Contact"@, contact, "From"@);
    message_laws::added_headers_come_last(base, "Contact"@, contact, "To"@);
    message_laws::added_headers_come_last(m1, "Content-Type"@, "application/sdp"@, "Contact"@);
    message_laws::added_headers_come_last(m1, "Content-Type"@, "application/sdp"@, "Call-ID"@);
    message_laws::added_headers_come_last(m1, "Content-Type"@, "application/sdp"@, "From"@);
    message_laws::added_headers_come_last(m1, "Content-Type"@, "application/sdp"@, "To"@);
}

/// A bridged call belongs to a Brew call when some leg of the bridge was filed for it.
pub proof fn legs_are_found_by_their_call(legs: Map<Seq<char>, LegRecord>, id: Seq<char>, leg: LegRecord)
    ensures
        bridge::leg_of_call(legs.insert(id, leg), leg.brew_call_id),
        !bridge::leg_of_call(Map::empty(), leg.brew_call_id),
        bridge::leg_of_call(legs, leg.brew_call_id) ==> exists|k: Seq<char>|
            legs.dom().contains(k) && (#[trigger] legs[k]).brew_call_id == leg.brew_call_id,
{
    assert(legs.insert(id, leg).dom().contains(id));
    if bridge::leg_of_call(legs, leg.brew_call_id) {
        let k = choose|k: Seq<char>| #[trigger]
            legs.dom().contains(k) && legs[k].brew_call_id == leg.brew_call_id;
        assert(legs[k].brew_call_id == leg.brew_call_id);
    }
}

/// A farewell goes out exactly when the dialog is known, and to where the dialog is.
pub proof fn known_dialogs_are_taken_leave_of(
    f: Option<Farewell>,
    call_id: Seq<char>,
    bye: Option<ByeModel>,
    host: Seq<char>,
    branch: Id,
)
    requires
        bridge::takes_leave(f, call_id, bye, host, branch),
    ensures
        f is Some <==> bye is Some,
        f matches Some(x) ==> x.target_addr@ == (bye->0).target_addr && x.request@.header("Call-ID"@)
            == Some(call_id) && x.request@.start == (StartModel::Request {
            method: MethodModel::Bye,
            uri: (bye->0).request_uri,
        }),
{
    if bye is Some {
        farewells_name_their_dialog(call_id, bye->0, host, branch);
    }
}

/// Of two addresses of a trunk the configured one counts, and the learned one without it.
pub proof fn configured_addresses_come_first(a: Option<String>, b: Option<String>)
    ensures
        a matches Some(x) ==> bridge::first_known(a, b) == Some(x@),
        a is None && b is Some ==> bridge::first_known(a, b) == Some((b->0)@),
        a is None && b is None ==> bridge::first_known(a, b) is None,
{
}

} // verus!

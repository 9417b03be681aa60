//! Links to other servers: the discovery of where to connect, and what a new peer is
//! told. A peer connects and authenticates as a basestation does, under the mode
//! `Peer`.
use crate::bytes::copy_range;
use crate::config::{FederationConfig, FederationPeerConfig};
use crate::digest;
use crate::digest::{get_param, Params};
use crate::ids::Id;
use crate::protocol;
use crate::protocol::{build_subscriber_message, SUB_AFFILIATE, SUB_REGISTER};
use crate::router;
use crate::router::RoutingPolicy;
use crate::scan;
use crate::scan::{copy_chars, search_text, split_words};
use crate::server;
use crate::server::normalized_path;
use crate::sip::auth;
use crate::sip::auth::{build_authorization, parse_params};
use crate::state::{Inner, SubscriberModel, World};
use crate::table::{member_list, Table};
use crate::text;
use crate::text::{
    chars_of, find_char_from, parse_unsigned, push_text, string_of, to_lower, trim_chars, utf8_text,
};
use vstd::prelude::*;
use vstd::slice::slice_subrange;

verus! {

/// The peers to dial, in their order: those that are switched on, and none while
/// federation is not.
pub open spec fn dialled(enabled: bool, peers: Seq<FederationPeerConfig>) -> Seq<
    FederationPeerConfig,
> {
    if enabled {
        peers.filter(|p: FederationPeerConfig| p.enabled)
    } else {
        Seq::empty()
    }
}

/// Lists the peers to dial.
pub fn peers_to_dial(cfg: &FederationConfig) -> (r: Vec<&FederationPeerConfig>)
    ensures
        r@.map_values(|p: &FederationPeerConfig| *p) == dialled(cfg.enabled, cfg.peers@),
{
    let ghost on = |p: FederationPeerConfig| p.enabled;
    let ghost plain = |p: &FederationPeerConfig| *p;
    let mut out: Vec<&FederationPeerConfig> = Vec::new();
    if !cfg.enabled {
        assert(out@.map_values(plain) =~= Seq::empty());
        return out;
    }
    let mut i: usize = 0;
    proof {
        reveal(Seq::filter);
        assert(cfg.peers@.take(0).filter(on) =~= Seq::empty());
        assert(out@.map_values(plain) =~= Seq::empty());
    }
    while i < cfg.peers.len()
        invariant
            i <= cfg.peers@.len(),
            on == (|p: FederationPeerConfig| p.enabled),
            plain == (|p: &FederationPeerConfig| *p),
            out@.map_values(plain) == cfg.peers@.take(i as int).filter(on),
        decreases cfg.peers@.len() - i,
    {
        let ghost before = out@;
        proof {
            reveal(Seq::filter);
            let t = cfg.peers@.take(i + 1);
            assert(t.drop_last() =~= cfg.peers@.take(i as int));
            assert(t.last() == cfg.peers@[i as int]);
        }
        if cfg.peers[i].enabled {
            out.push(&cfg.peers[i]);
            assert(out@.map_values(plain) =~= before.map_values(plain).push(cfg.peers@[i as int]));
        }
        i = i + 1;
    }
    assert(cfg.peers@.take(i as int) =~= cfg.peers@);
    out
}

/// What a server answered.
#[derive(Debug)]
pub struct HttpResponse {
    pub status: u16,
    /// By name in lower case.
    pub headers: Params,
    pub body: Vec<u8>,
}

#[verifier::ext_equal]
pub struct ResponseModel {
    pub status: u16,
    pub headers: Map<Seq<char>, Seq<char>>,
    pub body: Seq<u8>,
}

impl View for HttpResponse {
    type V = ResponseModel;

    open spec fn view(&self) -> ResponseModel {
        ResponseModel { status: self.status, headers: self.headers@, body: self.body@ }
    }
}

/// What is wrong with an answer.
#[derive(Debug, Clone, Copy, PartialEq, Eq, Structural)]
pub enum HttpError {
    /// No blank line parts the head from the body.
    NoSplit,
    /// The head is not UTF-8.
    NotText,
    /// The first line has no status.
    NoStatus,
}

/// The request for a page. The mode is told here: the session that follows takes it over.
pub open spec fn get_text(
    host: Seq<char>,
    path: Seq<char>,
    authorization: Option<Seq<char>>,
) -> Seq<char> {
    "GET "@ + path + " HTTP/1.1\r\nHost: "@ + host + "\r\nConnection: close\r\nX-Brew-Mode: Peer\r\n"@ + (
    match authorization {
        Some(a) => "Authorization: "@ + a + "\r\n"@,
        None => seq![],
    }) + "\r\n"@
}

/// Builds the request for a page.
pub fn http_get(host: &str, path: &str, authorization: Option<&str>) -> (r: String)
    ensures
        r@ == get_text(
            host@,
            path@,
            match authorization {
                Some(a) => Some(a@),
                None => None,
            },
        ),
{
    let mut out = String::new();
    push_text(&mut out, "GET ");
    push_text(&mut out, path);
    push_text(&mut out, " HTTP/1.1\r\nHost: ");
    push_text(&mut out, host);
    push_text(&mut out, "\r\nConnection: close\r\nX-Brew-Mode: Peer\r\n");
    if let Some(a) = authorization {
        push_text(&mut out, "Authorization: ");
        push_text(&mut out, a);
        push_text(&mut out, "\r\n");
    }
    push_text(&mut out, "\r\n");
    assert(out@ =~= get_text(
        host@,
        path@,
        match authorization {
            Some(a) => Some(a@),
            None => None,
        },
    ));
    out
}

/// Whether a blank line, CR LF CR LF, stands at a place.
pub open spec fn blank_at(b: Seq<u8>, i: int) -> bool {
    0 <= i && i + 4 <= b.len() && b[i] == 13 && b[i + 1] == 10 && b[i + 2] == 13 && b[i + 3] == 10
}

/// The first blank line from a place on.
pub open spec fn blank_line(b: Seq<u8>, from: int) -> Option<int>
    decreases b.len() - from,
{
    if from + 4 > b.len() {
        None
    } else if blank_at(b, from) {
        Some(from)
    } else {
        blank_line(b, from + 1)
    }
}

/// The lines of a text from a place on, parted by CR LF.
pub open spec fn crlf_lines(s: Seq<char>, i: int) -> Seq<Seq<char>>
    decreases s.len() - i,
{
    if i < 0 || i > s.len() {
        seq![]
    } else {
        proof {
            scan::find_text_is_first(s, "\r\n"@, i);
            reveal_strlit("\r\n");
        }
        match scan::find_text(s, "\r\n"@, i) {
            Some(k) => seq![s.subrange(i, k)] + crlf_lines(s, k + 2),
            None => seq![s.subrange(i, s.len() as int)],
        }
    }
}

/// A header line: name in lower case, and value.
pub open spec fn header_entry(line: Seq<char>) -> Option<(Seq<char>, Seq<char>)> {
    let k = text::find_char(line, ':', 0);
    if k < line.len() {
        Some(
            (
                text::lower_text(text::trim(line.subrange(0, k))),
                text::trim(scan::rest(line, k + 1)),
            ),
        )
    } else {
        None
    }
}

/// The headers in some lines; a later one replaces an earlier one.
pub open spec fn headers_of(lines: Seq<Seq<char>>) -> Map<Seq<char>, Seq<char>>
    decreases lines.len(),
{
    if lines.len() == 0 {
        Map::empty()
    } else {
        let before = headers_of(lines.drop_last());
        match header_entry(lines.last()) {
            Some((k, v)) => before.insert(k, v),
            None => before,
        }
    }
}

/// The status in the first line: its second word, as a number of 16 bits.
pub open spec fn status_of(line: Seq<char>) -> Option<nat> {
    let w = scan::words(line);
    if w.len() < 2 {
        None
    } else {
        text::bounded_value(w[1], 65535)
    }
}

/// What an answer says.
pub open spec fn response_of(b: Seq<u8>) -> Result<ResponseModel, HttpError> {
    match blank_line(b, 0) {
        None => Err(HttpError::NoSplit),
        Some(k) => {
            let head = b.subrange(0, k);
            if !vstd::utf8::valid_utf8(head) {
                Err(HttpError::NotText)
            } else {
                let lines = crlf_lines(vstd::utf8::decode_utf8(head), 0);
                match status_of(lines[0]) {
                    None => Err(HttpError::NoStatus),
                    Some(status) => Ok(
                        ResponseModel {
                            status: status as u16,
                            headers: headers_of(lines.drop_first()),
                            body: b.subrange(k + 4, b.len() as int),
                        },
                    ),
                }
            }
        },
    }
}

fn find_blank(b: &[u8]) -> (r: Option<usize>)
    ensures
        (match r {
            Some(k) => Some(k as int),
            None => None,
        }) == blank_line(b@, 0),
        r matches Some(k) ==> k + 4 <= b@.len(),
{
    let n: usize = b.len();
    let mut i: usize = 0;
    while n - i >= 4
        invariant
            n == b@.len(),
            i <= n,
            blank_line(b@, 0) == blank_line(b@, i as int),
        decreases n - i,
    {
        if b[i] == 13 && b[i + 1] == 10 && b[i + 2] == 13 && b[i + 3] == 10 {
            return Some(i);
        }
        i = i + 1;
    }
    None
}

fn split_crlf(s: &[char]) -> (r: Vec<Vec<char>>)
    ensures
        scan::views(r@) == crlf_lines(s@, 0),
        r@.len() > 0,
{
    let n: usize = s.len();
    let sep = chars_of("\r\n");
    proof {
        reveal_strlit("\r\n");
    }
    let mut out: Vec<Vec<char>> = Vec::new();
    let mut pos: usize = 0;
    assert(scan::views(out@) + crlf_lines(s@, 0) =~= crlf_lines(s@, 0));
    loop
        invariant_except_break
            n == s@.len(),
            sep@ == "\r\n"@,
            sep@.len() == 2,
            pos <= n,
            crlf_lines(s@, 0) == scan::views(out@) + crlf_lines(s@, pos as int),
        ensures
            crlf_lines(s@, 0) == scan::views(out@),
            out@.len() > 0,
        decreases n - pos,
    {
        let ghost before = scan::views(out@);
        match search_text(s, &sep, pos) {
            Some(k) => {
                let l = copy_chars(s, pos, k);
                out.push(l);
                assert(scan::views(out@) =~= before.push(l@));
                assert(before + (seq![l@] + crlf_lines(s@, k + 2)) =~= before.push(l@) + crlf_lines(
                    s@,
                    k + 2,
                ));
                pos = k + 2;
            },
            None => {
                let l = copy_chars(s, pos, n);
                out.push(l);
                assert(scan::views(out@) =~= before.push(l@));
                assert(before + seq![l@] =~= before.push(l@));
                break;
            },
        }
    }
    out
}

fn read_headers(lines: &Vec<Vec<char>>) -> (r: Params)
    requires
        lines@.len() > 0,
    ensures
        r@ == headers_of(scan::views(lines@).drop_first()),
{
    let ghost all = scan::views(lines@).drop_first();
    let mut out: Params = Table::new();
    let mut i: usize = 1;
    assert(all.subrange(0, 0) =~= Seq::<Seq<char>>::empty());
    while i < lines.len()
        invariant
            1 <= i <= lines@.len(),
            all == scan::views(lines@).drop_first(),
            out@ == headers_of(all.subrange(0, i - 1)),
        decreases lines@.len() - i,
    {
        let line = lines[i].as_slice();
        proof {
            let b = all.subrange(0, i as int);
            assert(b.drop_last() =~= all.subrange(0, i - 1));
            assert(b.last() == line@);
        }
        let k: usize = find_char_from(line, ':', 0);
        if k < line.len() {
            let name = to_lower(trim_chars(slice_subrange(line, 0, k)));
            let value = trim_chars(slice_subrange(line, k + 1, line.len()));
            out.insert(string_of(&name), string_of(value));
        }
        i = i + 1;
    }
    assert(all.subrange(0, i - 1) =~= all);
    out
}

pub open spec fn response_model(r: Result<HttpResponse, HttpError>) -> Result<
    ResponseModel,
    HttpError,
> {
    match r {
        Ok(a) => Ok(a@),
        Err(e) => Err(e),
    }
}

/// Reads what a server answered.
pub fn parse_http_response(b: &[u8]) -> (r: Result<HttpResponse, HttpError>)
    ensures
        response_model(r) == response_of(b@),
{
    let n: usize = b.len();
    let Some(k) = find_blank(b) else {
        return Err(HttpError::NoSplit);
    };
    let Some(head) = utf8_text(slice_subrange(b, 0, k)) else {
        return Err(HttpError::NotText);
    };
    let lines = split_crlf(&chars_of(&head));
    let words = split_words(&lines[0]);
    assert(scan::views(lines@)[0] == lines@[0]@);
    if words.len() < 2 {
        return Err(HttpError::NoStatus);
    }
    assert(scan::views(words@)[1] == words@[1]@);
    match parse_unsigned(&words[1], 65535) {
        None => Err(HttpError::NoStatus),
        Some(status) => {
            let headers = read_headers(&lines);
            let body = copy_range(b, k + 4, n);
            Ok(HttpResponse { status: status as u16, headers, body })
        },
    }
}

/// What follows from an answer to a discovery request.
#[derive(Debug)]
pub enum Discovered {
    /// Connect at this path.
    Connect(String),
    /// Ask again, with this authorization.
    Answer(String),
    /// The path that the peer gave is not UTF-8.
    NotText,
    /// Credentials were asked for without a challenge.
    NoChallenge,
    /// The answer to the challenge was turned down.
    Rejected(u16),
    /// Any other answer.
    Unexpected(u16),
}

#[verifier::ext_equal]
pub enum DiscoveredModel {
    Connect(Seq<char>),
    Answer(Seq<char>),
    NotText,
    NoChallenge,
    Rejected(u16),
    Unexpected(u16),
}

impl View for Discovered {
    type V = DiscoveredModel;

    open spec fn view(&self) -> DiscoveredModel {
        match self {
            Discovered::Connect(p) => DiscoveredModel::Connect(p@),
            Discovered::Answer(a) => DiscoveredModel::Answer(a@),
            Discovered::NotText => DiscoveredModel::NotText,
            Discovered::NoChallenge => DiscoveredModel::NoChallenge,
            Discovered::Rejected(s) => DiscoveredModel::Rejected(*s),
            Discovered::Unexpected(s) => DiscoveredModel::Unexpected(*s),
        }
    }
}

/// The path that the body of an answer gives.
pub open spec fn path_in(body: Seq<u8>) -> DiscoveredModel {
    if vstd::utf8::valid_utf8(body) {
        DiscoveredModel::Connect(text::trim(vstd::utf8::decode_utf8(body)))
    } else {
        DiscoveredModel::NotText
    }
}

/// What follows from the first answer. `cnonce` is fresh.
pub open spec fn first_answer(
    a: ResponseModel,
    username: Seq<char>,
    password: Seq<char>,
    path: Seq<char>,
    cnonce: Seq<char>,
) -> DiscoveredModel {
    if a.status == 200 {
        path_in(a.body)
    } else if a.status == 401 {
        match digest::param(a.headers, "www-authenticate"@) {
            None => DiscoveredModel::NoChallenge,
            Some(challenge) => DiscoveredModel::Answer(
                auth::authorization_text(
                    auth::auth_params(challenge),
                    username,
                    password,
                    "GET"@,
                    path,
                    cnonce,
                    1,
                ),
            ),
        }
    } else {
        DiscoveredModel::Unexpected(a.status)
    }
}

/// What follows from the answer to a request with authorization.
pub open spec fn second_answer(a: ResponseModel) -> DiscoveredModel {
    if a.status == 200 {
        path_in(a.body)
    } else {
        DiscoveredModel::Rejected(a.status)
    }
}

fn read_path(body: &[u8]) -> (r: Discovered)
    ensures
        r@ == path_in(body@),
{
    match utf8_text(body) {
        Some(s) => {
            let all = chars_of(&s);
            Discovered::Connect(string_of(trim_chars(&all)))
        },
        None => Discovered::NotText,
    }
}

/// Decides what follows from the first answer to a discovery request. `path` is what
/// was requested.
pub fn discover(
    peer: &FederationPeerConfig,
    path: &str,
    answer: &HttpResponse,
    cnonce: &str,
) -> (r: Discovered)
    ensures
        r@ == first_answer(answer@, peer.username@, peer.password@, path@, cnonce@),
{
    if answer.status == 200 {
        return read_path(&answer.body);
    }
    if answer.status == 401 {
        match get_param(&answer.headers, "www-authenticate") {
            None => Discovered::NoChallenge,
            Some(header) => {
                let challenge = parse_params(header);
                Discovered::Answer(
                    build_authorization(
                        &challenge,
                        &peer.username,
                        &peer.password,
                        "GET",
                        path,
                        cnonce,
                        1,
                    ),
                )
            },
        }
    } else {
        Discovered::Unexpected(answer.status)
    }
}

/// Decides what follows from the answer to a request with authorization.
pub fn discover_again(answer: &HttpResponse) -> (r: Discovered)
    ensures
        r@ == second_answer(answer@),
{
    if answer.status == 200 {
        read_path(&answer.body)
    } else {
        Discovered::Rejected(answer.status)
    }
}

/// A path in its canonical form.
pub fn normalize_path(path: &str) -> (r: String)
    ensures
        r@ == server::clean_path(path@),
{
    normalized_path(path)
}

/// Where to open the connection.
pub fn peer_url(host: &str, path: &str) -> (r: String)
    ensures
        r@ == "ws://"@ + host@ + server::clean_path(path@),
{
    let mut out = String::new();
    push_text(&mut out, "ws://");
    push_text(&mut out, host);
    push_text(&mut out, &normalized_path(path));
    assert(out@ =~= "ws://"@ + host@ + server::clean_path(path@));
    out
}

/// The packets that tell of a subscriber: its registration, and its groups if it has
/// any.
pub open spec fn told(issi: u32, groups: Seq<u32>) -> Seq<Seq<u8>> {
    let registration = protocol::subscriber_packet(SUB_REGISTER, issi, seq![]);
    if groups.len() == 0 {
        seq![registration]
    } else {
        seq![registration, protocol::subscriber_packet(SUB_AFFILIATE, issi, groups)]
    }
}

/// The packets that tell of several subscribers.
pub open spec fn told_all(subs: Seq<(u32, Seq<u32>)>) -> Seq<Seq<u8>>
    decreases subs.len(),
{
    if subs.len() == 0 {
        seq![]
    } else {
        told_all(subs.drop_last()) + told(subs.last().0, subs.last().1)
    }
}

/// Whether a list has every registered subscriber once, with each of its groups once.
pub open spec fn lists(subs: Seq<(u32, Seq<u32>)>, known: Map<u32, SubscriberModel>) -> bool {
    &&& forall|i: int|
        0 <= i < subs.len() ==> known.dom().contains((#[trigger] subs[i]).0)
            && known[subs[i].0].groups == subs[i].1.to_set() && subs[i].1.no_duplicates()
    &&& forall|i: int, j: int|
        0 <= i < j < subs.len() ==> (#[trigger] subs[i]).0 != (#[trigger] subs[j]).0
    &&& forall|k: u32| #[trigger]
        known.dom().contains(k) ==> exists|i: int|
            0 <= i < subs.len() && (#[trigger] subs[i]).0 == k
}

pub open spec fn packet_views(v: Seq<Vec<u8>>) -> Seq<Seq<u8>> {
    Seq::new(v.len(), |i: int| v[i]@)
}

/// The packets that a newly connected peer is sent, so that it learns of everything
/// that is registered here.
pub fn sync_peer(inner: &Inner) -> (r: Vec<Vec<u8>>)
    ensures
        exists|subs: Seq<(u32, Seq<u32>)>| #[trigger]
            lists(subs, inner@.subscribers) && packet_views(r@) == told_all(subs),
{
    let mut out: Vec<Vec<u8>> = Vec::new();
    let ghost mut subs: Seq<(u32, Seq<u32>)> = seq![];
    let n: usize = inner.subscribers.len();
    let ghost entries = inner.subscribers.entries();
    let mut i: usize = 0;
    assert(packet_views(out@) =~= told_all(subs));
    while i < n
        invariant
            n == entries.len(),
            entries == inner.subscribers.entries(),
            i <= n,
            subs.len() == i,
            forall|j: int|
                0 <= j < i ==> (#[trigger] subs[j]).0 == entries[j].0 && subs[j].1.to_set()
                    == entries[j].1.groups && subs[j].1.no_duplicates(),
            packet_views(out@) == told_all(subs),
        decreases n - i,
    {
        let (issi, sub) = inner.subscribers.entry(i);
        let groups = member_list(&sub.groups);
        let ghost before = packet_views(out@);
        let ghost one = (*issi, groups@);
        let none: [u32; 0] = [];
        let registration = build_subscriber_message(SUB_REGISTER, *issi, &none);
        assert(none@ =~= seq![]);
        let ghost first = registration@;
        out.push(registration);
        assert(packet_views(out@) =~= before.push(first));
        if groups.len() > 0 {
            let affiliation = build_subscriber_message(SUB_AFFILIATE, *issi, &groups);
            let ghost second = affiliation@;
            out.push(affiliation);
            assert(packet_views(out@) =~= before.push(first).push(second));
        }
        proof {
            assert(packet_views(out@) =~= before + told(one.0, one.1));
            let more = subs.push(one);
            assert(more.drop_last() =~= subs);
            assert(packet_views(out@) == told_all(more));
            subs = more;
        }
        i = i + 1;
    }
    proof {
        assert(lists(subs, inner@.subscribers)) by {
            assert forall|i: int, j: int| 0 <= i < j < subs.len() implies (#[trigger] subs[i]).0 != (
            #[trigger] subs[j]).0 by {
                assert(entries[i].0 != entries[j].0);
            }
            assert forall|i: int| 0 <= i < subs.len() implies inner@.subscribers.dom().contains(
                (#[trigger] subs[i]).0,
            ) && inner@.subscribers[subs[i].0].groups == subs[i].1.to_set()
                && subs[i].1.no_duplicates() by {
                assert(entries[i].0 == subs[i].0);
            }
            assert forall|k: u32| #[trigger] inner@.subscribers.dom().contains(k) implies exists|
                i: int,
            |
                0 <= i < subs.len() && (#[trigger] subs[i]).0 == k by {
                let i = choose|i: int| 0 <= i < n && (#[trigger] entries[i]).0 == k;
                assert(subs[i].0 == k);
            }
        }
    }
    out
}

/// The state of a server after it heard some packets from a client.
pub open spec fn heard(
    w: World,
    p: RoutingPolicy,
    now: u64,
    client: Id,
    packets: Seq<Seq<u8>>,
) -> World
    decreases packets.len(),
{
    if packets.len() == 0 {
        w
    } else {
        router::packet_step(
            heard(w, p, now, client, packets.drop_last()),
            p,
            now,
            client,
            packets.last(),
        ).world
    }
}

/// Whether a subscriber is known through a client, in some groups at least, and the client
/// has its place in those.
pub open spec fn knows(w: World, client: Id, issi: u32, groups: Seq<u32>) -> bool {
    w.subscribers.dom().contains(issi) && w.subscribers[issi].client_id == client && (forall|g: u32|
        #[trigger] groups.contains(g) ==> w.subscribers[issi].groups.contains(g)
            && w.group_clients.dom().contains(g) && w.group_clients[g].contains(client))
}

proof fn hearing_goes_on(
    w: World,
    p: RoutingPolicy,
    now: u64,
    client: Id,
    a: Seq<Seq<u8>>,
    b: Seq<Seq<u8>>,
)
    ensures
        heard(w, p, now, client, a + b) == heard(heard(w, p, now, client, a), p, now, client, b),
    decreases b.len(),
{
    if b.len() == 0 {
        assert(a + b =~= a);
    } else {
        hearing_goes_on(w, p, now, client, a, b.drop_last());
        assert((a + b).drop_last() =~= a + b.drop_last());
    }
}

proof fn one_is_learned(
    w: World,
    p: RoutingPolicy,
    now: u64,
    client: Id,
    issi: u32,
    groups: Seq<u32>,
)
    ensures
        knows(heard(w, p, now, client, told(issi, groups)), client, issi, groups),
        forall|other: u32, more: Seq<u32>|
            #![trigger knows(w, client, other, more)]
            knows(w, client, other, more) ==> knows(
                heard(w, p, now, client, told(issi, groups)),
                client,
                other,
                more,
            ),
{
    let packets = told(issi, groups);
    let first = protocol::subscriber_packet(SUB_REGISTER, issi, seq![]);
    protocol::subscriber_round_trip(
        SUB_REGISTER,
        issi,
        seq![],
        w.purged(now, p.session_ttl_seconds).version_of(client),
    );
    let w1 = router::packet_step(w, p, now, client, first).world;
    assert(heard(w, p, now, client, seq![first]) == w1) by {
        assert(seq![first].drop_last() =~= Seq::<Seq<u8>>::empty());
        assert(heard(w, p, now, client, Seq::<Seq<u8>>::empty()) == w);
    }
    if groups.len() > 0 {
        let second = protocol::subscriber_packet(SUB_AFFILIATE, issi, groups);
        protocol::subscriber_round_trip(
            SUB_AFFILIATE,
            issi,
            groups,
            w1.purged(now, p.session_ttl_seconds).version_of(client),
        );
        assert(packets.drop_last() =~= seq![first]);
        assert(packets.last() == second);
    }
}

/// A peer that hears the snapshot learns of every subscriber that is registered here
/// and of every group that it is in, and can reach both through this link.
pub proof fn snapshot_reaches_the_peer(
    subs: Seq<(u32, Seq<u32>)>,
    known: Map<u32, SubscriberModel>,
    far: World,
    p: RoutingPolicy,
    now: u64,
    client: Id,
    issi: u32,
)
    requires
        lists(subs, known),
        known.dom().contains(issi),
    ensures
        ({
            let w = heard(far, p, now, client, told_all(subs));
            &&& w.subscribers.dom().contains(issi)
            &&& w.subscribers[issi].client_id == client
            &&& known[issi].groups.subset_of(w.subscribers[issi].groups)
            &&& forall|g: u32| #[trigger]
                known[issi].groups.contains(g) ==> w.group_clients.dom().contains(g)
                    && w.group_clients[g].contains(client)
        }),
{
    let i = choose|i: int| 0 <= i < subs.len() && (#[trigger] subs[i]).0 == issi;
    all_are_learned(subs, far, p, now, client, i);
    let w = heard(far, p, now, client, told_all(subs));
    assert(knows(w, client, issi, subs[i].1));
    assert forall|g: u32| #[trigger]
        known[issi].groups.contains(g) implies w.subscribers[issi].groups.contains(g)
        && w.group_clients.dom().contains(g) && w.group_clients[g].contains(client) by {
        assert(subs[i].1.to_set().contains(g));
        assert(subs[i].1.contains(g));
    }
}

proof fn all_are_learned(
    subs: Seq<(u32, Seq<u32>)>,
    far: World,
    p: RoutingPolicy,
    now: u64,
    client: Id,
    i: int,
)
    requires
        0 <= i < subs.len(),
    ensures
        knows(heard(far, p, now, client, told_all(subs)), client, subs[i].0, subs[i].1),
    decreases subs.len(),
{
    let init = subs.drop_last();
    let last = subs.last();
    let mid = heard(far, p, now, client, told_all(init));
    hearing_goes_on(far, p, now, client, told_all(init), told(last.0, last.1));
    one_is_learned(mid, p, now, client, last.0, last.1);
    if i < subs.len() - 1 {
        all_are_learned(init, far, p, now, client, i);
        assert(init[i] == subs[i]);
        assert(knows(mid, client, subs[i].0, subs[i].1));
    }
}

/// A peer is dialled exactly when federation and the peer itself are switched on.
pub proof fn enabled_peers_are_dialled(
    enabled: bool,
    peers: Seq<FederationPeerConfig>,
    p: FederationPeerConfig,
)
    ensures
        dialled(enabled, peers).contains(p) <==> enabled && peers.contains(p) && p.enabled,
{
    let on = |p: FederationPeerConfig| p.enabled;
    if enabled {
        let d = peers.filter(on);
        if d.contains(p) {
            let i = choose|i: int| 0 <= i < d.len() && d[i] == p;
            peers.lemma_filter_pred(on, i);
            peers.lemma_filter_contains_rev(on, p);
        }
        if peers.contains(p) && p.enabled {
            let i = choose|i: int| 0 <= i < peers.len() && peers[i] == p;
            assert(on(peers[i]));
            peers.lemma_filter_contains(on, i);
        }
    }
}

/// The body of an answer is what stands behind the first blank line; an answer without one
/// is refused, and so is one whose head is no text.
pub proof fn answers_are_split_at_the_blank_line(b: Seq<u8>, k: int)
    ensures
        0 <= k && k + 4 <= b.len() && b[k] == 13 && b[k + 1] == 10 && b[k + 2] == 13 && b[k + 3]
            == 10 && (forall|i: int|
            0 <= i < k ==> !(#[trigger] b[i] == 13 && b[i + 1] == 10 && b[i + 2] == 13 && b[i + 3]
                == 10)) ==> {
            &&& response_of(b) matches Ok(a) ==> a.body == b.subrange(k + 4, b.len() as int)
            &&& !vstd::utf8::valid_utf8(b.subrange(0, k)) <==> response_of(b) == Err::<
                ResponseModel,
                HttpError,
            >(HttpError::NotText)
            &&& response_of(b) != Err::<ResponseModel, HttpError>(HttpError::NoSplit)
        },
        (forall|i: int|
            0 <= i && i + 4 <= b.len() ==> !(#[trigger] b[i] == 13 && b[i + 1] == 10 && b[i + 2]
                == 13 && b[i + 3] == 10)) ==> response_of(b) == Err::<ResponseModel, HttpError>(
            HttpError::NoSplit,
        ),
{
    if 0 <= k && k + 4 <= b.len() && b[k] == 13 && b[k + 1] == 10 && b[k + 2] == 13 && b[k + 3] == 10
        && (forall|i: int|
        0 <= i < k ==> !(#[trigger] b[i] == 13 && b[i + 1] == 10 && b[i + 2] == 13 && b[i + 3] == 10)) {
        blank_line_found(b, 0, k);
    }
    if forall|i: int|
        0 <= i && i + 4 <= b.len() ==> !(#[trigger] b[i] == 13 && b[i + 1] == 10 && b[i + 2] == 13
            && b[i + 3] == 10) {
        no_blank_line(b, 0);
    }
}

proof fn blank_line_found(b: Seq<u8>, from: int, k: int)
    requires
        0 <= from <= k,
        blank_at(b, k),
        forall|i: int|
            0 <= i < k ==> !(#[trigger] b[i] == 13 && b[i + 1] == 10 && b[i + 2] == 13 && b[i + 3]
                == 10),
    ensures
        blank_line(b, from) == Some(k),
    decreases k - from,
{
    if from < k {
        assert(!(b[from] == 13 && b[from + 1] == 10 && b[from + 2] == 13 && b[from + 3] == 10));
        blank_line_found(b, from + 1, k);
    }
}

proof fn no_blank_line(b: Seq<u8>, from: int)
    requires
        0 <= from,
        forall|i: int|
            0 <= i && i + 4 <= b.len() ==> !(#[trigger] b[i] == 13 && b[i + 1] == 10 && b[i + 2]
                == 13 && b[i + 3] == 10),
    ensures
        blank_line(b, from) is None,
    decreases b.len() - from,
{
    if from + 4 <= b.len() {
        assert(!(b[from] == 13 && b[from + 1] == 10 && b[from + 2] == 13 && b[from + 3] == 10));
        no_blank_line(b, from + 1);
    }
}

/// A header line is its name, whatever the case, a colon and its value, without the white
/// space around them; the last line of a name counts, and a line without a colon does not.
pub proof fn header_lines_are_read(
    lines: Seq<Seq<char>>,
    name: Seq<char>,
    value: Seq<char>,
    other: Seq<char>,
)
    requires
        !name.contains(':'),
        !other.contains(':'),
    ensures
        ({
            let key = text::lower_text(text::trim(name));
            let more = headers_of(lines.push(name + seq![':'] + value));
            &&& more.dom().contains(key)
            &&& more[key] == text::trim(value)
            &&& forall|k: Seq<char>|
                k != key ==> (#[trigger] more.dom().contains(k) <==> headers_of(
                    lines,
                ).dom().contains(k))
            &&& forall|k: Seq<char>|
                k != key && #[trigger] more.dom().contains(k) ==> more[k] == headers_of(lines)[k]
            &&& headers_of(lines.push(other)) == headers_of(lines)
        }),
{
    let line = name + seq![':'] + value;
    let n = name.len() as int;
    text::find_char_is_first(line, ':', 0);
    let f = text::find_char(line, ':', 0);
    assert(line[n] == ':');
    if f < n {
        assert(line[f] == name[f]);
        assert(name.contains(':'));
    }
    if f > n {
        assert(line[n] != ':');
    }
    assert(line.subrange(0, n) =~= name);
    assert(scan::rest(line, n + 1) =~= value);
    assert(lines.push(line).drop_last() =~= lines);
    text::find_char_is_first(other, ':', 0);
    let g = text::find_char(other, ':', 0);
    if g < other.len() {
        assert(other.contains(':'));
    }
    assert(lines.push(other).drop_last() =~= lines);
}

/// A discovery leads to a connection exactly when the answer is a success and its body a
/// text, which is the path. A challenge is answered once; every other status ends it.
pub proof fn discovery_connects_on_success(
    a: ResponseModel,
    username: Seq<char>,
    password: Seq<char>,
    path: Seq<char>,
    cnonce: Seq<char>,
)
    ensures
        ({
            let first = first_answer(a, username, password, path, cnonce);
            let second = second_answer(a);
            &&& first is Connect <==> a.status == 200 && vstd::utf8::valid_utf8(a.body)
            &&& second is Connect <==> a.status == 200 && vstd::utf8::valid_utf8(a.body)
            &&& first is Connect ==> first == second && first->Connect_0 == text::trim(
                vstd::utf8::decode_utf8(a.body),
            )
            &&& first is Answer <==> a.status == 401 && a.headers.dom().contains(
                "www-authenticate"@,
            )
            &&& !(second is Answer)
            &&& a.status == 401 && !a.headers.dom().contains("www-authenticate"@) ==> first
                is NoChallenge
            &&& a.status != 200 && a.status != 401 ==> first == DiscoveredModel::Unexpected(
                a.status,
            )
            &&& a.status != 200 ==> second == DiscoveredModel::Rejected(a.status)
        }),
{
}

/// A new peer is told of each subscriber by two packets at most: that it is registered,
/// and the groups that it is in, if there are any.
pub proof fn snapshots_tell_of_each_subscriber(issi: u32, groups: Seq<u32>)
    ensures
        told(issi, groups).len() == (if groups.len() == 0 {
            1int
        } else {
            2
        }),
        told(issi, groups)[0] == protocol::subscriber_packet(1, issi, Seq::empty()),
        groups.len() > 0 ==> told(issi, groups)[1] == protocol::subscriber_packet(8, issi, groups),
{
    assert(Seq::<u32>::empty() =~= seq![]);
}

/// A request for a page names the page, the host and the mode of a peer, and ends in a
/// blank line; credentials stand in a line of their own in front of that.
pub proof fn page_requests_carry_the_credentials(
    host: Seq<char>,
    path: Seq<char>,
    authorization: Seq<char>,
)
    ensures
        ({
            let bare = get_text(host, path, None);
            let full = get_text(host, path, Some(authorization));
            let head = "GET "@ + path + " HTTP/1.1\r\n"@ + "Host: "@ + host + "\r\n"@
                + "Connection: close\r\n"@ + "X-Brew-Mode: Peer\r\n"@;
            &&& bare == head + "\r\n"@
            &&& full == head + "Authorization: "@ + authorization + "\r\n"@ + "\r\n"@
        }),
{
    reveal_strlit(" HTTP/1.1\r\nHost: ");
    reveal_strlit(" HTTP/1.1\r\n");
    reveal_strlit("Host: ");
    reveal_strlit("\r\n");
    reveal_strlit("\r\nConnection: close\r\nX-Brew-Mode: Peer\r\n");
    reveal_strlit("Connection: close\r\n");
    reveal_strlit("X-Brew-Mode: Peer\r\n");
    reveal_strlit("Authorization: ");
    reveal_strlit("GET ");
    assert(" HTTP/1.1\r\nHost: "@ =~= " HTTP/1.1\r\n"@ + "Host: "@);
    assert("\r\nConnection: close\r\nX-Brew-Mode: Peer\r\n"@ =~= "\r\n"@ + "Connection: close\r\n"@
        + "X-Brew-Mode: Peer\r\n"@);
    let head = "GET "@ + path + " HTTP/1.1\r\n"@ + "Host: "@ + host + "\r\n"@
        + "Connection: close\r\n"@ + "X-Brew-Mode: Peer\r\n"@;
    assert(get_text(host, path, None) =~= head + "\r\n"@);
    assert(get_text(host, path, Some(authorization)) =~= head + "Authorization: "@ + authorization
        + "\r\n"@ + "\r\n"@);
}

/// The answer to a challenge is made with the peer's own credentials, for the page that
/// was asked for, as the first use of the nonce.
pub proof fn challenges_are_answered_with_the_credentials(
    a: ResponseModel,
    username: Seq<char>,
    password: Seq<char>,
    path: Seq<char>,
    cnonce: Seq<char>,
)
    requires
        a.status == 401,
        a.headers.dom().contains("www-authenticate"@),
    ensures
        first_answer(a, username, password, path, cnonce) == DiscoveredModel::Answer(
            auth::authorization_text(
                auth::auth_params(a.headers["www-authenticate"@]),
                username,
                password,
                "GET"@,
                path,
                cnonce,
                1,
            ),
        ),
{
}

} // verus!

//! The Brew listener: discovery, digest authentication and sessions.
use crate::config::AuthConfig;
use crate::digest;
use crate::digest::{
    get_param, join_colon, make_response, md5_hex, read_params, strip_digest, Params,
};
use crate::ids;
use crate::ids::{id_text, Id};
use crate::protocol;
use crate::protocol::{ConnVersion, BREW_PROTOCOL_VERSION};
use crate::scan;
use crate::scan::{copy_chars, has_text, split_char};
use crate::sip::auth;
use crate::state;
use crate::state::{AuthSession, Client, ClientMode, ClientModel, Inner, SessionModel, World};
use crate::table::Table;
use crate::text;
use crate::text::{
    chars_of, has_prefix, parse_unsigned, push_text, same_text, same_text_no_case, string_of,
    trim_chars,
};
use vstd::prelude::*;

verus! {

/// `s` without slashes at its end, down to one character.
pub open spec fn drop_slashes(s: Seq<char>) -> Seq<char>
    decreases s.len(),
{
    if s.len() > 1 && s.last() == '/' {
        drop_slashes(s.drop_last())
    } else {
        s
    }
}

/// A path with one slash in front and none at its end.
pub open spec fn clean_path(path: Seq<char>) -> Seq<char> {
    drop_slashes(
        if path.len() > 0 && path[0] == '/' {
            path
        } else {
            "/"@ + path
        },
    )
}

/// Brings a configured path into its canonical form.
pub fn normalized_path(path: &str) -> (r: String)
    ensures
        r@ == clean_path(path@),
{
    let p = chars_of(path);
    let mut v: Vec<char> = Vec::new();
    proof {
        reveal_strlit("/");
    }
    if !(p.len() > 0 && p[0] == '/') {
        v.push('/');
    }
    let ghost start = v@;
    let mut i: usize = 0;
    while i < p.len()
        invariant
            i <= p@.len(),
            v@ == start + p@.subrange(0, i as int),
        decreases p@.len() - i,
    {
        v.push(p[i]);
        i += 1;
        assert(v@ =~= start + p@.subrange(0, i as int));
    }
    assert(p@.subrange(0, i as int) =~= p@);
    let ghost whole = if path@.len() > 0 && path@[0] == '/' {
        path@
    } else {
        "/"@ + path@
    };
    assert(v@ =~= whole);
    while v.len() > 1 && v[v.len() - 1] == '/'
        invariant
            drop_slashes(v@) == drop_slashes(whole),
        decreases v@.len(),
    {
        let ghost before = v@;
        let _ = v.pop();
        assert(v@ =~= before.drop_last());
    }
    string_of(&v)
}

/// A canonical path starts with a slash and, unless it is the root, does not
/// end in one; making it canonical again changes nothing.
pub proof fn clean_path_is_canonical(path: Seq<char>)
    ensures
        clean_path(path).len() > 0,
        clean_path(path)[0] == '/',
        clean_path(path).len() > 1 ==> clean_path(path).last() != '/',
        clean_path(clean_path(path)) == clean_path(path),
{
    reveal_strlit("/");
    let whole = if path.len() > 0 && path[0] == '/' {
        path
    } else {
        "/"@ + path
    };
    assert(whole[0] == '/');
    drop_slashes_facts(whole);
}

proof fn drop_slashes_facts(s: Seq<char>)
    requires
        s.len() > 0,
    ensures
        drop_slashes(s).len() > 0,
        drop_slashes(s)[0] == s[0],
        drop_slashes(s).len() > 1 ==> drop_slashes(s).last() != '/',
        drop_slashes(drop_slashes(s)) == drop_slashes(s),
    decreases s.len(),
{
    if s.len() > 1 && s.last() == '/' {
        drop_slashes_facts(s.drop_last());
    }
}

/// Value of the version header in answers.
pub fn version_header_value() -> (r: &'static str)
    ensures
        r@ == "1"@,
{
    "1"
}

/// The version that a request asks for, where its header is there and
/// readable.
pub open spec fn requested_version(header: Option<Seq<char>>) -> Option<nat> {
    match header {
        Some(h) => text::bounded_value(text::trim(h), 255),
        None => None,
    }
}

/// The version that a connection starts with, or nothing for a version that is
/// not supported. Without a header it starts at version 0.
pub open spec fn seed_version(present: bool, header: Option<Seq<char>>) -> Option<ConnVersion> {
    if !present {
        Some(ConnVersion::V0)
    } else {
        match requested_version(header) {
            Some(v) => if v == 0 {
                Some(ConnVersion::V0)
            } else if v <= BREW_PROTOCOL_VERSION {
                Some(ConnVersion::V1)
            } else {
                None
            },
            None => None,
        }
    }
}

/// The characters of an optional text.
pub open spec fn opt_chars(o: Option<&str>) -> Option<Seq<char>> {
    match o {
        Some(s) => Some(s@),
        None => None,
    }
}

/// Checks the version header. `present` says whether it was sent, `header` its
/// text where it is readable.
pub fn check_brew_version(present: bool, header: Option<&str>) -> (r: Option<ConnVersion>)
    ensures
        r == seed_version(present, opt_chars(header)),
{
    if !present {
        return Some(ConnVersion::V0);
    }
    match header {
        Some(h) => {
            let c = chars_of(h);
            match parse_unsigned(trim_chars(&c), 255) {
                Some(v) => {
                    if v == 0 {
                        Some(ConnVersion::V0)
                    } else if v <= BREW_PROTOCOL_VERSION as u64 {
                        Some(ConnVersion::from_header_value(Some(v as u8)))
                    } else {
                        None
                    }
                },
                None => None,
            }
        },
        None => None,
    }
}

/// Body of the answer to a request for a version that is not supported.
pub fn unsupported_version_text() -> (r: &'static str)
    ensures
        r@ == "Unsupported Brew version; this server implements version 1\n"@,
{
    "Unsupported Brew version; this server implements version 1\n"
}

/// Most digits that a Brew user name may have.
pub const MAX_BREW_USERNAME_DIGITS: usize = 7;

/// A Brew user name: one to seven decimal digits.
pub open spec fn valid_username(s: Seq<char>) -> bool {
    0 < s.len() <= MAX_BREW_USERNAME_DIGITS && text::all_digits(s)
}

/// Tests a Brew user name.
pub fn is_valid_brew_username(username: &str) -> (r: bool)
    ensures
        r == valid_username(username@),
{
    let u = chars_of(username);
    if u.len() == 0 || u.len() > MAX_BREW_USERNAME_DIGITS {
        return false;
    }
    let mut i: usize = 0;
    while i < u.len()
        invariant
            i <= u@.len(),
            u@ == username@,
            forall|k: int| 0 <= k < i ==> text::is_digit(#[trigger] u@[k]),
        decreases u@.len() - i,
    {
        if !('0' <= u[i] && u[i] <= '9') {
            assert(!text::is_digit(u@[i as int]));
            return false;
        }
        i += 1;
    }
    true
}

/// Parts of a comma-separated list, each without white space around it.
pub open spec fn trimmed_parts(s: Seq<char>) -> Seq<Seq<char>> {
    scan::pieces(s, ',').map_values(|p: Seq<char>| text::trim(p))
}

/// Parameters of a digest header, cut at every comma.
pub open spec fn digest_params(header: Seq<char>) -> Map<Seq<char>, Seq<char>> {
    digest::params_of(trimmed_parts(digest::without_digest(header)))
}

/// Reads the parameters of a digest header.
pub fn parse_digest(header_value: &str) -> (r: Params)
    ensures
        r@ == digest_params(header_value@),
{
    let value = strip_digest(header_value);
    let parts = split_char(&value, ',');
    let mut trimmed: Vec<Vec<char>> = Vec::new();
    let mut i: usize = 0;
    assert(scan::views(trimmed@) =~= trimmed_parts(value@).subrange(0, 0));
    while i < parts.len()
        invariant
            i <= parts@.len(),
            scan::views(parts@) == scan::pieces(value@, ','),
            scan::views(trimmed@) == trimmed_parts(value@).subrange(0, i as int),
        decreases parts@.len() - i,
    {
        let t = trim_chars(parts[i].as_slice());
        let c = copy_chars(t, 0, t.len());
        let ghost before = scan::views(trimmed@);
        trimmed.push(c);
        proof {
            assert(c@ =~= t@);
            assert(scan::views(parts@)[i as int] == parts@[i as int]@);
            assert(scan::views(trimmed@) =~= before.push(c@));
            assert(scan::views(trimmed@) =~= trimmed_parts(value@).subrange(0, i + 1));
        }
        i += 1;
    }
    assert(trimmed_parts(value@).subrange(0, i as int) =~= trimmed_parts(value@));
    read_params(&trimmed)
}

/// What quality of protection adds to a response; missing parts count as
/// empty.
pub open spec fn counted_params(p: Map<Seq<char>, Seq<char>>) -> Option<(Seq<char>, Seq<char>)> {
    if p.dom().contains("qop"@) && scan::contains_text(p["qop"@], "auth"@) {
        Some((auth::param_or_empty(p, "nc"@), auth::param_or_empty(p, "cnonce"@)))
    } else {
        None
    }
}

/// Whether an answer names a configured user, a live nonce, this realm and the
/// requested URI, and carries a response.
pub open spec fn answer_fits(
    p: Map<Seq<char>, Seq<char>>,
    users: Map<Seq<char>, Seq<char>>,
    nonces: Map<Seq<char>, u64>,
    realm: Seq<char>,
    uri: Seq<char>,
) -> bool {
    &&& p.dom().contains("username"@)
    &&& valid_username(p["username"@])
    &&& users.dom().contains(p["username"@])
    &&& p.dom().contains("nonce"@)
    &&& nonces.dom().contains(p["nonce"@])
    &&& auth::param_or_empty(p, "realm"@) == realm
    &&& auth::param_or_empty(p, "uri"@) == uri
    &&& p.dom().contains("response"@)
}

/// The response that a fitting answer ought to carry.
pub open spec fn answer_response(
    p: Map<Seq<char>, Seq<char>>,
    password: Seq<char>,
    method: Seq<char>,
    realm: Seq<char>,
    uri: Seq<char>,
) -> Seq<char> {
    digest::digest_response(
        p["username"@],
        realm,
        password,
        method,
        uri,
        p["nonce"@],
        counted_params(p),
    )
}

/// The user that a digest header proves.
pub open spec fn digest_user(
    header: Option<Seq<char>>,
    users: Map<Seq<char>, Seq<char>>,
    nonces: Map<Seq<char>, u64>,
    realm: Seq<char>,
    method: Seq<char>,
    uri: Seq<char>,
) -> Option<Seq<char>> {
    match header {
        Some(h) => {
            let p = digest_params(h);
            if text::starts_with(h, "Digest "@) && answer_fits(p, users, nonces, realm, uri)
                && text::eq_no_case(
                answer_response(p, users[p["username"@]], method, realm, uri),
                p["response"@],
            ) {
                Some(p["username"@])
            } else {
                None
            }
        },
        None => None,
    }
}

/// The state after an answer was checked: the nonce of a good answer is spent.
pub open spec fn after_digest(w: World, header: Option<Seq<char>>, user: Option<Seq<char>>) -> World {
    if user is Some {
        World { digest_nonces: w.digest_nonces.remove(digest_params(header->0)["nonce"@]), ..w }
    } else {
        w
    }
}

/// What a check needs of an answer that names a configured user, a live nonce,
/// this realm and the requested URI: user name, password and nonce.
fn fitting_answer<'a>(
    p: &'a Params,
    users: &'a Table<String, String>,
    nonces: &Table<String, u64>,
    realm: &str,
    uri: &str,
) -> (r: Option<(&'a str, &'a str, &'a str, &'a str)>)
    ensures
        match r {
            Some((user, password, nonce, response)) => {
                &&& answer_fits(p@, users@, nonces@, realm@, uri@)
                &&& user@ == p@["username"@]
                &&& password@ == users@[p@["username"@]]
                &&& nonce@ == p@["nonce"@]
                &&& response@ == p@["response"@]
            },
            None => !answer_fits(p@, users@, nonces@, realm@, uri@),
        },
{
    proof {
        reveal_strlit("");
        assert(""@ =~= Seq::<char>::empty());
    }
    let user = match get_param(p, "username") {
        Some(u) => u,
        None => {
            return None;
        },
    };
    if !is_valid_brew_username(user) {
        return None;
    }
    let key = user.to_owned();
    let password = match users.get(&key) {
        Some(v) => v.as_str(),
        None => {
            return None;
        },
    };
    let nonce = match get_param(p, "nonce") {
        Some(n) => n,
        None => {
            return None;
        },
    };
    let nonce_key = nonce.to_owned();
    if !nonces.contains_key(&nonce_key) {
        return None;
    }
    let r = match get_param(p, "realm") {
        Some(v) => v,
        None => "",
    };
    assert(r@ =~= auth::param_or_empty(p@, "realm"@));
    if !same_text(r, realm) {
        return None;
    }
    let u = match get_param(p, "uri") {
        Some(v) => v,
        None => "",
    };
    assert(u@ =~= auth::param_or_empty(p@, "uri"@));
    if !same_text(u, uri) {
        return None;
    }
    match get_param(p, "response") {
        Some(response) => Some((user, password, nonce, response)),
        None => None,
    }
}

/// Verifies a digest header and gives the user that it proves. A nonce is good
/// for one answer.
pub fn verify_digest(
    inner: &mut Inner,
    auth: &AuthConfig,
    header: Option<&str>,
    method: &str,
    expected_uri: &str,
) -> (r: Option<String>)
    ensures
        protocol::opt_text(r) == digest_user(
            opt_chars(header),
            auth.users@,
            old(inner)@.digest_nonces,
            auth.realm@,
            method@,
            expected_uri@,
        ),
        final(inner)@ == after_digest(old(inner)@, opt_chars(header), protocol::opt_text(r)),
{
    let value = match header {
        Some(h) => h,
        None => {
            return None;
        },
    };
    let h = chars_of(value);
    let scheme = chars_of("Digest ");
    if !has_prefix(&h, &scheme) {
        return None;
    }
    let p = parse_digest(value);
    proof {
        reveal_strlit("");
        assert(""@ =~= Seq::<char>::empty());
    }
    match fitting_answer(
        &p,
        &auth.users,
        &inner.digest_nonces,
        auth.realm.as_str(),
        expected_uri,
    ) {
        Some((user, password, nonce, response)) => {
            let mut counted: Option<(&str, &str)> = None;
            match get_param(&p, "qop") {
                Some(q) => {
                    let qc = chars_of(q);
                    let want = chars_of("auth");
                    if has_text(&qc, &want) {
                        let nc = match get_param(&p, "nc") {
                            Some(v) => v,
                            None => "",
                        };
                        let cnonce = match get_param(&p, "cnonce") {
                            Some(v) => v,
                            None => "",
                        };
                        assert(nc@ =~= auth::param_or_empty(p@, "nc"@));
                        assert(cnonce@ =~= auth::param_or_empty(p@, "cnonce"@));
                        counted = Some((nc, cnonce));
                    }
                },
                None => {},
            }
            let expected = make_response(
                user,
                auth.realm.as_str(),
                password,
                method,
                expected_uri,
                nonce,
                counted,
            );
            if !same_text_no_case(expected.as_str(), response) {
                return None;
            }
            let spent = nonce.to_owned();
            let proved = user.to_owned();
            inner.digest_nonces.remove(&spent);
            Some(proved)
        },
        None => None,
    }
}

/// A digest challenge of the Brew listener.
pub open spec fn brew_challenge_text(realm: Seq<char>, nonce: Seq<char>) -> Seq<char> {
    "Digest "@ + auth::quoted("realm"@, realm) + ", "@ + auth::quoted("nonce"@, nonce) + ", "@ + auth::quoted(
        "qop"@,
        "auth"@,
    ) + ", "@ + auth::quoted("opaque"@, digest::md5_text(digest::colon(realm, "brew"@)))
}

/// Issues a challenge: a fresh nonce is remembered from now on.
pub fn digest_challenge(inner: &mut Inner, realm: &str, nonce: Id, now: u64) -> (r: String)
    ensures
        r@ == brew_challenge_text(realm@, ids::hex_text(ids::id_bytes(nonce))),
        final(inner)@ == (World {
            digest_nonces: old(inner)@.digest_nonces.insert(ids::hex_text(ids::id_bytes(nonce)), now),
            ..old(inner)@
        }),
{
    let n = id_text(nonce);
    let opaque = md5_hex(join_colon(realm, "brew").as_str());
    let mut out = String::new();
    push_text(&mut out, "Digest realm=\"");
    push_text(&mut out, realm);
    push_text(&mut out, "\", nonce=\"");
    push_text(&mut out, n.as_str());
    push_text(&mut out, "\", qop=\"auth\", opaque=\"");
    push_text(&mut out, opaque.as_str());
    push_text(&mut out, "\"");
    proof {
        reveal_strlit("Digest realm=\"");
        reveal_strlit("\", nonce=\"");
        reveal_strlit("\", qop=\"auth\", opaque=\"");
        reveal_strlit("\"");
        reveal_strlit("=\"");
        reveal_strlit("Digest ");
        reveal_strlit("realm");
        reveal_strlit("nonce");
        reveal_strlit("qop");
        reveal_strlit("auth");
        reveal_strlit("opaque");
        reveal_strlit(", ");
        assert("Digest realm=\""@ =~= "Digest "@ + "realm"@ + "=\""@);
        assert("\", nonce=\""@ =~= "\""@ + ", "@ + "nonce"@ + "=\""@);
        assert("\", qop=\"auth\", opaque=\""@ =~= "\""@ + ", "@ + "qop"@ + "=\""@ + "auth"@
            + "\""@ + ", "@ + "opaque"@ + "=\""@);
        assert(out@ =~= brew_challenge_text(realm@, n@));
    }
    inner.digest_nonces.insert(n, now);
    out
}

/// Path of a session.
pub open spec fn session_path(base: Seq<char>, token: Id) -> Seq<char> {
    clean_path(base) + "/session/"@ + ids::hex_text(ids::id_bytes(token))
}

/// What becomes of a discovery request.
#[derive(Debug)]
pub enum Discovery {
    /// The requested version is not supported.
    Unsupported,
    /// Open the connection right away.
    Upgrade { mode: ClientMode, version: ConnVersion },
    /// Ask for credentials, with this challenge.
    Challenge(String),
    /// Connect at this path.
    Path(String),
}

pub enum DiscoveryModel {
    Unsupported,
    Upgrade { mode: ClientMode, version: ConnVersion },
    Challenge(Seq<char>),
    Path(Seq<char>),
}

impl View for Discovery {
    type V = DiscoveryModel;

    open spec fn view(&self) -> DiscoveryModel {
        match *self {
            Discovery::Unsupported => DiscoveryModel::Unsupported,
            Discovery::Upgrade { mode, version } => DiscoveryModel::Upgrade { mode, version },
            Discovery::Challenge(c) => DiscoveryModel::Challenge(c@),
            Discovery::Path(p) => DiscoveryModel::Path(p@),
        }
    }
}

/// What a discovery request says, in its headers and its path.
pub struct DiscoveryRequest<'a> {
    pub version_present: bool,
    pub version: Option<&'a str>,
    pub mode: Option<&'a str>,
    pub upgrade: Option<&'a str>,
    pub authorization: Option<&'a str>,
    pub path: &'a str,
}

/// Whether a request asks for a WebSocket.
pub open spec fn wants_websocket(upgrade: Option<Seq<char>>) -> bool {
    upgrade is Some && text::eq_no_case(upgrade->0, "websocket"@)
}

fn is_websocket(upgrade: Option<&str>) -> (r: bool)
    ensures
        r == wants_websocket(opt_chars(upgrade)),
{
    match upgrade {
        Some(u) => same_text_no_case(u, "websocket"),
        None => false,
    }
}

/// The headers and the path of a discovery request.
pub struct RequestModel {
    pub version_present: bool,
    pub version: Option<Seq<char>>,
    pub mode: Option<Seq<char>>,
    pub upgrade: Option<Seq<char>>,
    pub authorization: Option<Seq<char>>,
    pub path: Seq<char>,
}

impl<'a> View for DiscoveryRequest<'a> {
    type V = RequestModel;

    open spec fn view(&self) -> RequestModel {
        RequestModel {
            version_present: self.version_present,
            version: opt_chars(self.version),
            mode: opt_chars(self.mode),
            upgrade: opt_chars(self.upgrade),
            authorization: opt_chars(self.authorization),
            path: self.path@,
        }
    }
}

/// What a discovery request is answered, and what the server knows afterwards.
pub open spec fn discovery_step(
    w: World,
    auth: AuthConfig,
    websocket_path: Seq<char>,
    now: u64,
    request: RequestModel,
    token: Id,
    nonce: Id,
) -> (DiscoveryModel, World) {
    let w = w.purged(now, auth.session_ttl_seconds);
    let seed = seed_version(request.version_present, request.version);
    let mode = state::mode_of_header(request.mode);
    let user = digest_user(
        request.authorization,
        auth.users@,
        w.digest_nonces,
        auth.realm@,
        "GET"@,
        request.path,
    );
    if seed is None {
        (DiscoveryModel::Unsupported, w)
    } else if !auth.enabled && wants_websocket(request.upgrade) {
        (DiscoveryModel::Upgrade { mode, version: seed->0 }, w)
    } else if !auth.enabled {
        (DiscoveryModel::Path(clean_path(websocket_path)), w)
    } else if user is Some {
        (
            DiscoveryModel::Path(session_path(websocket_path, token)),
            World {
                auth_sessions: w.auth_sessions.insert(
                    ids::hex_text(ids::id_bytes(token)),
                    SessionModel { at: now, mode, version: seed->0, username: user },
                ),
                ..after_digest(w, request.authorization, user)
            },
        )
    } else {
        (
            DiscoveryModel::Challenge(
                brew_challenge_text(auth.realm@, ids::hex_text(ids::id_bytes(nonce))),
            ),
            World {
                digest_nonces: w.digest_nonces.insert(ids::hex_text(ids::id_bytes(nonce)), now),
                ..w
            },
        )
    }
}

/// Answers a discovery request. Without authentication a WebSocket is opened
/// directly, or the path to do so is given. With it, a good answer opens a
/// session at a path of its own; anything else is challenged. `token` and
/// `nonce` are fresh.
pub fn brew_discovery(
    inner: &mut Inner,
    auth: &AuthConfig,
    websocket_path: &str,
    now: u64,
    request: &DiscoveryRequest,
    token: Id,
    nonce: Id,
) -> (r: Discovery)
    ensures
        (r@, final(inner)@) == discovery_step(
            old(inner)@,
            *auth,
            websocket_path@,
            now,
            request@,
            token,
            nonce,
        ),
        ({
            let w = old(inner)@.purged(now, auth.session_ttl_seconds);
            let seed = seed_version(request.version_present, opt_chars(request.version));
            let mode = state::mode_of_header(opt_chars(request.mode));
            let user = digest_user(
                opt_chars(request.authorization),
                auth.users@,
                w.digest_nonces,
                auth.realm@,
                "GET"@,
                request.path@,
            );
            if seed is None {
                r is Unsupported && final(inner)@ == w
            } else if !auth.enabled && wants_websocket(opt_chars(request.upgrade)) {
                r == (Discovery::Upgrade { mode, version: seed->0 }) && final(inner)@ == w
            } else if !auth.enabled {
                r is Path && r->Path_0@ == clean_path(websocket_path@) && final(inner)@ == w
            } else if user is Some {
                let checked = after_digest(w, opt_chars(request.authorization), user);
                &&& r is Path
                &&& r->Path_0@ == session_path(websocket_path@, token)
                &&& final(inner)@ == (World {
                    auth_sessions: w.auth_sessions.insert(
                        ids::hex_text(ids::id_bytes(token)),
                        SessionModel { at: now, mode, version: seed->0, username: user },
                    ),
                    ..checked
                })
            } else {
                &&& r is Challenge
                &&& r->Challenge_0@ == brew_challenge_text(auth.realm@, ids::hex_text(ids::id_bytes(nonce)))
                &&& final(inner)@ == (World {
                    digest_nonces: w.digest_nonces.insert(ids::hex_text(ids::id_bytes(nonce)), now),
                    ..w
                })
            }
        }),
{
    inner.purge_ephemeral(now, auth.session_ttl_seconds);
    let version = match check_brew_version(request.version_present, request.version) {
        Some(v) => v,
        None => {
            return Discovery::Unsupported;
        },
    };
    let mode = ClientMode::from_header(request.mode);
    if !auth.enabled {
        if is_websocket(request.upgrade) {
            return Discovery::Upgrade { mode, version };
        }
        return Discovery::Path(normalized_path(websocket_path));
    }
    match verify_digest(inner, auth, request.authorization, "GET", request.path) {
        Some(user) => {
            let t = id_text(token);
            let mut path = normalized_path(websocket_path);
            push_text(&mut path, "/session/");
            push_text(&mut path, t.as_str());
            let session = AuthSession { at: now, mode, version, username: Some(user) };
            inner.auth_sessions.insert(t, session);
            Discovery::Path(path)
        },
        None => Discovery::Challenge(digest_challenge(inner, auth.realm.as_str(), nonce, now)),
    }
}

/// What becomes of a request to a session path.
#[derive(Debug)]
pub enum SessionAnswer {
    /// There are no sessions.
    NotFound,
    /// The session is unknown, spent or expired.
    Unauthorized,
    /// The request does not ask for a WebSocket.
    BadRequest,
    Upgrade { mode: ClientMode, version: ConnVersion, username: Option<String> },
}

pub enum SessionAnswerModel {
    NotFound,
    Unauthorized,
    BadRequest,
    Upgrade { mode: ClientMode, version: ConnVersion, username: Option<Seq<char>> },
}

impl View for SessionAnswer {
    type V = SessionAnswerModel;

    open spec fn view(&self) -> SessionAnswerModel {
        match *self {
            SessionAnswer::NotFound => SessionAnswerModel::NotFound,
            SessionAnswer::Unauthorized => SessionAnswerModel::Unauthorized,
            SessionAnswer::BadRequest => SessionAnswerModel::BadRequest,
            SessionAnswer::Upgrade { mode, version, username } => SessionAnswerModel::Upgrade {
                mode,
                version,
                username: protocol::opt_text(username),
            },
        }
    }
}

/// What a request to a session path is answered, and what the server knows afterwards.
pub open spec fn session_step(
    w: World,
    auth: AuthConfig,
    now: u64,
    token: Seq<char>,
    upgrade: Option<Seq<char>>,
) -> (SessionAnswerModel, World) {
    let w = w.purged(now, auth.session_ttl_seconds);
    if !auth.enabled {
        (SessionAnswerModel::NotFound, w)
    } else if !w.auth_sessions.dom().contains(token) {
        (SessionAnswerModel::Unauthorized, w)
    } else if !wants_websocket(upgrade) {
        (SessionAnswerModel::BadRequest, w)
    } else {
        let s = w.auth_sessions[token];
        (
            SessionAnswerModel::Upgrade {
                mode: s.mode,
                version: s.version,
                username: s.username,
            },
            World { auth_sessions: w.auth_sessions.remove(token), ..w },
        )
    }
}

/// Opens a session. A session path is good for one connection.
pub fn brew_session(
    inner: &mut Inner,
    auth: &AuthConfig,
    now: u64,
    token: &str,
    upgrade: Option<&str>,
) -> (r: SessionAnswer)
    ensures
        (r@, final(inner)@) == session_step(
            old(inner)@,
            *auth,
            now,
            token@,
            opt_chars(upgrade),
        ),
        ({
            let w = old(inner)@.purged(now, auth.session_ttl_seconds);
            if !auth.enabled {
                r is NotFound && final(inner)@ == w
            } else if !w.auth_sessions.dom().contains(token@) {
                r is Unauthorized && final(inner)@ == w
            } else if !wants_websocket(opt_chars(upgrade)) {
                r is BadRequest && final(inner)@ == w
            } else {
                let s = w.auth_sessions[token@];
                &&& r matches SessionAnswer::Upgrade { mode, version, username }
                &&& mode == s.mode
                &&& version == s.version
                &&& protocol::opt_text(username) == s.username
                &&& final(inner)@ == (World {
                    auth_sessions: w.auth_sessions.remove(token@),
                    ..w
                })
            }
        }),
{
    inner.purge_ephemeral(now, auth.session_ttl_seconds);
    if !auth.enabled {
        return SessionAnswer::NotFound;
    }
    let key = token.to_owned();
    if !inner.auth_sessions.contains_key(&key) {
        return SessionAnswer::Unauthorized;
    }
    if !is_websocket(upgrade) {
        return SessionAnswer::BadRequest;
    }
    match inner.auth_sessions.remove(&key) {
        Some(s) => SessionAnswer::Upgrade {
            mode: s.mode,
            version: s.version,
            username: s.username,
        },
        None => SessionAnswer::Unauthorized,
    }
}

/// Registers a connection.
pub fn connect_client(
    inner: &mut Inner,
    id: Id,
    mode: ClientMode,
    version: ConnVersion,
    remote_addr: Option<String>,
    connected_at_ms: u64,
    username: Option<String>,
)
    ensures
        final(inner)@ == (World {
            clients: old(inner)@.clients.insert(
                id,
                ClientModel {
                    mode,
                    version,
                    remote_addr: protocol::opt_text(remote_addr),
                    connected_at_ms,
                    username: protocol::opt_text(username),
                },
            ),
            ..old(inner)@
        }),
{
    inner.clients.insert(id, Client { mode, version, remote_addr, connected_at_ms, username });
}

/// A digest answer is good once: the nonce that it used is spent.
pub proof fn digest_answers_are_single_use(
    w: World,
    header: Option<Seq<char>>,
    users: Map<Seq<char>, Seq<char>>,
    realm: Seq<char>,
    method: Seq<char>,
    uri: Seq<char>,
)
    requires
        digest_user(header, users, w.digest_nonces, realm, method, uri) is Some,
    ensures
        digest_user(
            header,
            users,
            after_digest(
                w,
                header,
                digest_user(header, users, w.digest_nonces, realm, method, uri),
            ).digest_nonces,
            realm,
            method,
            uri,
        ) is None,
{
}

/// Only a configured user with a well-formed name is ever proved.
pub proof fn digest_proves_configured_users(
    header: Option<Seq<char>>,
    users: Map<Seq<char>, Seq<char>>,
    nonces: Map<Seq<char>, u64>,
    realm: Seq<char>,
    method: Seq<char>,
    uri: Seq<char>,
)
    ensures
        digest_user(header, users, nonces, realm, method, uri) matches Some(u) ==> users.dom().contains(
        u) && valid_username(u),
{
}

/// A connection starts with the version that it asks for: version 0 without a header,
/// version 0 or 1 where the header says so, and not at all with a later one or with what
/// is no number.
pub proof fn connections_start_with_the_version_asked_for(v: nat, h: Seq<char>)
    ensures
        seed_version(false, None) == Some(ConnVersion::V0),
        v == 0 ==> seed_version(true, Some(text::decimal(v))) == Some(ConnVersion::V0),
        v == 1 ==> seed_version(true, Some(text::decimal(v))) == Some(ConnVersion::V1),
        v > 1 ==> seed_version(true, Some(text::decimal(v))) is None,
        seed_version(true, None) is None,
        text::unsigned_value(text::trim(h)) is None ==> seed_version(true, Some(h)) is None,
{
    let d = text::decimal(v);
    text::decimal_round_trip(v);
    assert(text::is_digit(d[0]));
    assert(text::is_digit(d.last()));
    digit_is_no_space(d[0]);
    digit_is_no_space(d.last());
    assert(text::trim(d) == d);
}

proof fn digit_is_no_space(c: char)
    requires
        text::is_digit(c),
    ensures
        !text::is_space(c),
{
}

/// A slash in front of a path and slashes behind it do not matter, and a path that has
/// just the one in front is left as it is.
pub proof fn slashes_around_a_path_do_not_matter(path: Seq<char>)
    ensures
        path.len() > 0 && path[0] != '/' ==> clean_path(seq!['/'] + path) == clean_path(path),
        path.len() > 0 ==> clean_path(path + seq!['/']) == clean_path(path),
        path.len() > 0 && path[0] == '/' && (path.len() == 1 || path.last() != '/')
            ==> clean_path(path) == path,
        clean_path(Seq::empty()) == seq!['/'],
{
    reveal_strlit("/");
    assert("/"@ =~= seq!['/']);
    if path.len() > 0 {
        let longer = path + seq!['/'];
        assert(longer.drop_last() =~= path);
        let whole = "/"@ + path;
        assert(("/"@ + longer).drop_last() =~= whole);
        assert(longer[0] == path[0]);
        if path[0] != '/' {
            assert(("/"@ + longer).last() == '/');
        } else {
            assert(longer.last() == '/');
        }
    }
    assert("/"@ + Seq::<char>::empty() =~= seq!['/']);
}

/// A user name is one to seven decimal digits, and nothing else.
pub proof fn user_names_are_short_numbers(s: Seq<char>)
    ensures
        valid_username(s) <==> 1 <= s.len() <= 7 && forall|i: int|
            0 <= i < s.len() ==> 48 <= #[trigger] s[i] as int <= 57,
{
    if valid_username(s) {
        assert forall|i: int| 0 <= i < s.len() implies 48 <= #[trigger] s[i] as int <= 57 by {
            assert(text::is_digit(s[i]));
        }
    }
    if 1 <= s.len() <= 7 && forall|i: int|
        0 <= i < s.len() ==> 48 <= #[trigger] s[i] as int <= 57 {
        assert forall|i: int| 0 <= i < s.len() implies text::is_digit(#[trigger] s[i]) by {
            let c = s[i];
            assert(48 <= c as int <= 57);
            code_is_digit(c);
        }
    }
}

proof fn code_is_digit(c: char)
    requires
        48 <= c as int <= 57,
    ensures
        text::is_digit(c),
{
}

/// A digest answer counts only for a configured user, to a nonce that was given out, in
/// this realm, for what is requested, and with the response that the user's password
/// gives; an answer to another nonce, realm or request proves nobody.
pub proof fn digest_answers_fit_the_request(
    header: Seq<char>,
    users: Map<Seq<char>, Seq<char>>,
    nonces: Map<Seq<char>, u64>,
    realm: Seq<char>,
    method: Seq<char>,
    uri: Seq<char>,
)
    ensures
        digest_user(Some(header), users, nonces, realm, method, uri) matches Some(u) ==> {
            let p = digest_params(header);
            &&& p.dom().contains("username"@) && p["username"@] == u
            &&& users.dom().contains(u)
            &&& 1 <= u.len() <= 7
            &&& p.dom().contains("nonce"@) && nonces.dom().contains(p["nonce"@])
            &&& (if p.dom().contains("realm"@) {
                p["realm"@]
            } else {
                Seq::empty()
            }) == realm
            &&& (if p.dom().contains("uri"@) {
                p["uri"@]
            } else {
                Seq::empty()
            }) == uri
            &&& p.dom().contains("response"@)
        },
        digest_user(None, users, nonces, realm, method, uri) is None,
        forall|n: Seq<char>|
            digest_params(header).dom().contains("nonce"@) && digest_params(header)["nonce"@] == n
                && !#[trigger] nonces.dom().contains(n) ==> digest_user(
                Some(header),
                users,
                nonces,
                realm,
                method,
                uri,
            ) is None,
{
}

/// A good answer to a challenge opens a session at a path of its own, which is good for
/// one connection, with the mode, the version and the user of the request, until it has
/// expired.
pub proof fn sessions_are_good_once(
    w: World,
    auth: AuthConfig,
    websocket_path: Seq<char>,
    now: u64,
    request: RequestModel,
    token: Id,
    nonce: Id,
    later: u64,
    again: u64,
    upgrade: Seq<char>,
)
    requires
        auth.enabled,
        request.authorization is Some,
        seed_version(request.version_present, request.version) is Some,
        digest_user(
            request.authorization,
            auth.users@,
            w.purged(now, auth.session_ttl_seconds).digest_nonces,
            auth.realm@,
            "GET"@,
            request.path,
        ) is Some,
        text::lower_text(upgrade) == "websocket"@,
    ensures
        ({
            let (answer, open) = discovery_step(
                w,
                auth,
                websocket_path,
                now,
                request,
                token,
                nonce,
            );
            let key = ids::hex_text(ids::id_bytes(token));
            let user = digest_user(
                request.authorization,
                auth.users@,
                w.purged(now, auth.session_ttl_seconds).digest_nonces,
                auth.realm@,
                "GET"@,
                request.path,
            );
            let (first, used) = session_step(open, auth, later, key, Some(upgrade));
            let (second, _) = session_step(used, auth, again, key, Some(upgrade));
            let lasts = later < now + 1_000_000_000 * (if auth.session_ttl_seconds == 0 {
                1
            } else {
                auth.session_ttl_seconds as int
            });
            &&& answer == DiscoveryModel::Path(clean_path(websocket_path) + "/session/"@ + key)
            &&& lasts ==> first == SessionAnswerModel::Upgrade {
                mode: state::mode_of_header(request.mode),
                version: seed_version(request.version_present, request.version)->0,
                username: user,
            }
            &&& !lasts ==> first == SessionAnswerModel::Unauthorized
            &&& second == SessionAnswerModel::Unauthorized
        }),
{
    let (answer, open) = discovery_step(w, auth, websocket_path, now, request, token, nonce);
    let key = ids::hex_text(ids::id_bytes(token));
    state::things_last_their_time(open, later, auth.session_ttl_seconds);
    reveal_strlit("websocket");
    assert(text::lower_text("websocket"@) =~= "websocket"@);
    assert(open.auth_sessions.dom().contains(key));
    assert(open.auth_sessions[key].at == now);
    let (first, used) = session_step(open, auth, later, key, Some(upgrade));
    assert(!used.auth_sessions.dom().contains(key));
}

/// A request without a good answer is challenged, and the nonce of the challenge counts
/// from then on; no session is opened. Without authentication nobody is challenged: a
/// WebSocket is opened at once, and any other request is told the path.
pub proof fn strangers_are_challenged(
    w: World,
    auth: AuthConfig,
    websocket_path: Seq<char>,
    now: u64,
    request: RequestModel,
    token: Id,
    nonce: Id,
)
    requires
        seed_version(request.version_present, request.version) is Some,
        request.authorization is None,
    ensures
        ({
            let (answer, after) = discovery_step(
                w,
                auth,
                websocket_path,
                now,
                request,
                token,
                nonce,
            );
            let socket = request.upgrade is Some && text::lower_text(request.upgrade->0)
                == "websocket"@;
            &&& auth.enabled ==> {
                &&& answer is Challenge
                &&& after.digest_nonces.dom().contains(ids::hex_text(ids::id_bytes(nonce)))
                &&& after.digest_nonces[ids::hex_text(ids::id_bytes(nonce))] == now
                &&& after.auth_sessions.dom().subset_of(w.auth_sessions.dom())
            }
            &&& !auth.enabled && socket ==> answer == DiscoveryModel::Upgrade {
                mode: state::mode_of_header(request.mode),
                version: seed_version(request.version_present, request.version)->0,
            }
            &&& !auth.enabled && !socket ==> answer == DiscoveryModel::Path(
                clean_path(websocket_path),
            )
        }),
{
    reveal_strlit("websocket");
    assert(text::lower_text("websocket"@) =~= "websocket"@);
}

/// A version that is not supported is turned away, whatever else the request says. There
/// are no sessions without authentication, and a session needs a WebSocket.
pub proof fn other_requests_are_turned_away(
    w: World,
    auth: AuthConfig,
    websocket_path: Seq<char>,
    now: u64,
    request: RequestModel,
    token: Id,
    nonce: Id,
    key: Seq<char>,
)
    ensures
        seed_version(request.version_present, request.version) is None ==> discovery_step(
            w,
            auth,
            websocket_path,
            now,
            request,
            token,
            nonce,
        ).0 == DiscoveryModel::Unsupported,
        !auth.enabled ==> session_step(w, auth, now, key, request.upgrade).0
            == SessionAnswerModel::NotFound,
        auth.enabled && !w.auth_sessions.dom().contains(key) ==> session_step(
            w,
            auth,
            now,
            key,
            request.upgrade,
        ).0 == SessionAnswerModel::Unauthorized,
        !(session_step(w, auth, now, key, None).0 is Upgrade),
{
}

} // verus!

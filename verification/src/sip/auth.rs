//! SIP digest authentication, on both sides: challenging a peer and answering
//! a challenge.
use crate::bytes;
use crate::digest;
use crate::digest::{
    get_param, hex_string, join_colon, make_response, md5_hex, read_params, strip_digest, Params,
};
use crate::ids;
use crate::scan;
use crate::scan::has_text;
use crate::text;
use crate::text::{chars_of, push_text, same_text, same_text_no_case, trim_chars};
use vstd::prelude::*;

verus! {

/// Progress of cutting a text at commas outside quotes.
pub struct QuoteState {
    pub pieces: Seq<Seq<char>>,
    pub current: Seq<char>,
    pub quoted: bool,
}

/// The state after one more character.
pub open spec fn quote_step(b: QuoteState, c: char) -> QuoteState {
    if c == ',' && !b.quoted {
        QuoteState { pieces: b.pieces.push(b.current), current: Seq::empty(), ..b }
    } else {
        QuoteState {
            current: b.current.push(c),
            quoted: if c == '"' {
                !b.quoted
            } else {
                b.quoted
            },
            ..b
        }
    }
}

/// The state before anything was read.
pub open spec fn quote_start() -> QuoteState {
    QuoteState { pieces: Seq::empty(), current: Seq::empty(), quoted: false }
}

/// The state after a text read from a state.
pub open spec fn quote_run(b: QuoteState, s: Seq<char>) -> QuoteState
    decreases s.len(),
{
    if s.len() == 0 {
        b
    } else {
        quote_step(quote_run(b, s.drop_last()), s.last())
    }
}

/// The pieces of a text that commas outside quotes separate; a blank last
/// piece does not count.
pub open spec fn quoted_pieces(s: Seq<char>) -> Seq<Seq<char>> {
    let e = quote_run(quote_start(), s);
    if text::trim(e.current).len() == 0 {
        e.pieces
    } else {
        e.pieces.push(e.current)
    }
}

/// Parameters of an authentication header.
pub open spec fn auth_params(header: Seq<char>) -> Map<Seq<char>, Seq<char>> {
    digest::params_of(quoted_pieces(digest::without_digest(header)))
}

fn split_quoted(s: &[char]) -> (r: Vec<Vec<char>>)
    ensures
        scan::views(r@) == quoted_pieces(s@),
{
    let mut out: Vec<Vec<char>> = Vec::new();
    let mut in_quotes = false;
    let mut cur: Vec<char> = Vec::new();
    let mut i: usize = 0;
    assert(scan::views(out@) =~= Seq::<Seq<char>>::empty());
    assert(s@.subrange(0, 0) =~= Seq::<char>::empty());
    while i < s.len()
        invariant
            i <= s@.len(),
            quote_run(quote_start(), s@.subrange(0, i as int)) == (QuoteState {
                pieces: scan::views(out@),
                current: cur@,
                quoted: in_quotes,
            }),
        decreases s@.len() - i,
    {
        let c = s[i];
        proof {
            let b = s@.subrange(0, i + 1);
            assert(b.drop_last() =~= s@.subrange(0, i as int));
            assert(b.last() == c);
        }
        if c == ',' && !in_quotes {
            let ghost before = scan::views(out@);
            let mut piece: Vec<char> = Vec::new();
            std::mem::swap(&mut piece, &mut cur);
            out.push(piece);
            assert(scan::views(out@) =~= before.push(piece@));
            assert(cur@ =~= Seq::<char>::empty());
        } else {
            if c == '"' {
                in_quotes = !in_quotes;
            }
            cur.push(c);
        }
        i += 1;
    }
    assert(s@.subrange(0, i as int) =~= s@);
    if trim_chars(&cur).len() != 0 {
        let ghost before = scan::views(out@);
        out.push(cur);
        assert(scan::views(out@) =~= before.push(cur@));
    }
    out
}

/// Reads the parameters of an authentication header: names in lower case,
/// values without quotes.
pub fn parse_params(header: &str) -> (r: Params)
    ensures
        r@ == auth_params(header@),
{
    let value = strip_digest(header);
    let parts = split_quoted(&value);
    read_params(&parts)
}

/// What quality of protection adds to a response.
pub open spec fn counted_of(
    qop: Option<Seq<char>>,
    nc: Option<Seq<char>>,
    cnonce: Option<Seq<char>>,
) -> Option<(Seq<char>, Seq<char>)> {
    if qop is Some && nc is Some && cnonce is Some && scan::contains_text(qop->0, "auth"@) {
        Some((nc->0, cnonce->0))
    } else {
        None
    }
}

/// The characters of an optional text.
pub open spec fn opt_str(o: Option<&str>) -> Option<Seq<char>> {
    match o {
        Some(s) => Some(s@),
        None => None,
    }
}

/// Computes the response for the given credentials and challenge.
pub fn compute_response(
    username: &str,
    password: &str,
    realm: &str,
    method: &str,
    uri: &str,
    nonce: &str,
    qop: Option<&str>,
    nc: Option<&str>,
    cnonce: Option<&str>,
) -> (r: String)
    ensures
        r@ == digest::digest_response(
            username@,
            realm@,
            password@,
            method@,
            uri@,
            nonce@,
            counted_of(opt_str(qop), opt_str(nc), opt_str(cnonce)),
        ),
{
    let mut counted: Option<(&str, &str)> = None;
    match (qop, nc, cnonce) {
        (Some(q), Some(n), Some(c)) => {
            let qc = chars_of(q);
            let auth = chars_of("auth");
            if has_text(&qc, &auth) {
                counted = Some((n, c));
            }
        },
        _ => {},
    }
    make_response(username, realm, password, method, uri, nonce, counted)
}

/// The response that an answer ought to carry.
pub open spec fn expected_response(
    p: Map<Seq<char>, Seq<char>>,
    password: Seq<char>,
    method: Seq<char>,
) -> Seq<char> {
    digest::digest_response(
        p["username"@],
        p["realm"@],
        password,
        method,
        p["uri"@],
        p["nonce"@],
        counted_of(digest::param(p, "qop"@), digest::param(p, "nc"@), digest::param(p, "cnonce"@)),
    )
}

/// Whether an answer with the given parameters is complete and to the given
/// nonce.
pub open spec fn answers_nonce(p: Map<Seq<char>, Seq<char>>, nonce: Seq<char>) -> bool {
    &&& p.dom().contains("username"@)
    &&& p.dom().contains("realm"@)
    &&& p.dom().contains("uri"@)
    &&& p.dom().contains("nonce"@)
    &&& p.dom().contains("response"@)
    &&& p["nonce"@] == nonce
}

/// Whether an authorization proves knowledge of a password.
pub open spec fn authorized(
    header: Seq<char>,
    password: Seq<char>,
    method: Seq<char>,
    nonce: Seq<char>,
) -> bool {
    let p = auth_params(header);
    answers_nonce(p, nonce) && text::eq_no_case(expected_response(p, password, method), p["response"@])
}

/// Whether an answer is complete, to the given nonce, and carries the response
/// that it ought to; `expected` is that response.
pub fn accepts(p: &Params, nonce: &str, expected: &str) -> (r: bool)
    ensures
        r == (answers_nonce(p@, nonce@) && text::eq_no_case(expected@, p@["response"@])),
{
    match (
        get_param(p, "username"),
        get_param(p, "realm"),
        get_param(p, "uri"),
        get_param(p, "nonce"),
        get_param(p, "response"),
    ) {
        (Some(_), Some(_), Some(_), Some(n), Some(response)) => {
            same_text(n, nonce) && same_text_no_case(expected, response)
        },
        _ => false,
    }
}

/// Verifies an authorization against a known password and the nonce that was
/// issued.
pub fn verify_authorization(
    auth_header: &str,
    password: &str,
    method: &str,
    known_nonce: &str,
) -> (r: bool)
    ensures
        r == authorized(auth_header@, password@, method@, known_nonce@),
{
    let p = parse_params(auth_header);
    match (
        get_param(&p, "username"),
        get_param(&p, "realm"),
        get_param(&p, "uri"),
        get_param(&p, "nonce"),
    ) {
        (Some(username), Some(realm), Some(uri), Some(nonce)) => {
            let expected = compute_response(
                username,
                password,
                realm,
                method,
                uri,
                nonce,
                get_param(&p, "qop"),
                get_param(&p, "nc"),
                get_param(&p, "cnonce"),
            );
            accepts(&p, known_nonce, expected.as_str())
        },
        _ => false,
    }
}

/// A parameter with its value in quotes.
pub open spec fn quoted(key: Seq<char>, value: Seq<char>) -> Seq<char> {
    key + "=\""@ + value + "\""@
}

fn push_quoted(out: &mut String, key: &str, value: &str)
    ensures
        final(out)@ == old(out)@ + quoted(key@, value@),
{
    push_text(out, key);
    push_text(out, "=\"");
    push_text(out, value);
    push_text(out, "\"");
    assert(out@ =~= old(out)@ + quoted(key@, value@));
}

/// A parameter, or nothing where it is not given.
pub open spec fn param_or_empty(p: Map<Seq<char>, Seq<char>>, name: Seq<char>) -> Seq<char> {
    if p.dom().contains(name) {
        p[name]
    } else {
        Seq::empty()
    }
}

/// A request counter as eight hexadecimal digits.
pub open spec fn nc_text(nc: u32) -> Seq<char> {
    ids::hex_text(bytes::be_bytes(nc as nat, 4))
}

fn nc_string(nc: u32) -> (r: String)
    ensures
        r@ == nc_text(nc),
{
    let b: [u8; 4] = [
        (nc / 16777216) as u8,
        (nc / 65536 % 256) as u8,
        (nc / 256 % 256) as u8,
        (nc % 256) as u8,
    ];
    proof {
        reveal_with_fuel(bytes::be_bytes, 5);
        assert(nc as nat / 256 / 256 == nc as nat / 65536);
        assert(nc as nat / 65536 / 256 == nc as nat / 16777216);
        assert(b@ =~= bytes::be_bytes(nc as nat, 4));
    }
    hex_string(&b)
}

/// Whether a challenge asks for quality of protection.
pub open spec fn wants_auth(challenge: Map<Seq<char>, Seq<char>>) -> bool {
    challenge.dom().contains("qop"@) && scan::contains_text(challenge["qop"@], "auth"@)
}

/// An authorization that answers a challenge.
pub open spec fn authorization_text(
    challenge: Map<Seq<char>, Seq<char>>,
    username: Seq<char>,
    password: Seq<char>,
    method: Seq<char>,
    uri: Seq<char>,
    cnonce: Seq<char>,
    nc: u32,
) -> Seq<char> {
    let realm = param_or_empty(challenge, "realm"@);
    let nonce = param_or_empty(challenge, "nonce"@);
    let response = digest::digest_response(
        username,
        realm,
        password,
        method,
        uri,
        nonce,
        counted_of(digest::param(challenge, "qop"@), Some(nc_text(nc)), Some(cnonce)),
    );
    let base = "Digest "@ + quoted("username"@, username) + ", "@ + quoted("realm"@, realm) + ", "@
        + quoted("nonce"@, nonce) + ", "@ + quoted("uri"@, uri) + ", "@ + quoted(
        "response"@,
        response,
    ) + ", algorithm=MD5"@;
    let protected = if wants_auth(challenge) {
        base + ", qop=auth, nc="@ + nc_text(nc) + ", "@ + quoted("cnonce"@, cnonce)
    } else {
        base
    };
    if challenge.dom().contains("opaque"@) {
        protected + ", "@ + quoted("opaque"@, challenge["opaque"@])
    } else {
        protected
    }
}

/// Answers a challenge.
pub fn build_authorization(
    challenge: &Params,
    username: &str,
    password: &str,
    method: &str,
    uri: &str,
    cnonce: &str,
    nc: u32,
) -> (r: String)
    ensures
        r@ == authorization_text(
            challenge@,
            username@,
            password@,
            method@,
            uri@,
            cnonce@,
            nc,
        ),
{
    let ghost want = authorization_text(
        challenge@,
        username@,
        password@,
        method@,
        uri@,
        cnonce@,
        nc,
    );
    proof {
        reveal_strlit("");
        assert(""@ =~= Seq::<char>::empty());
    }
    let realm = match get_param(challenge, "realm") {
        Some(v) => v,
        None => "",
    };
    let nonce = match get_param(challenge, "nonce") {
        Some(v) => v,
        None => "",
    };
    let qop = get_param(challenge, "qop");
    let nc_str = nc_string(nc);
    let response = compute_response(
        username,
        password,
        realm,
        method,
        uri,
        nonce,
        qop,
        Some(nc_str.as_str()),
        Some(cnonce),
    );
    let mut out = String::new();
    push_text(&mut out, "Digest ");
    push_quoted(&mut out, "username", username);
    push_text(&mut out, ", ");
    push_quoted(&mut out, "realm", realm);
    push_text(&mut out, ", ");
    push_quoted(&mut out, "nonce", nonce);
    push_text(&mut out, ", ");
    push_quoted(&mut out, "uri", uri);
    push_text(&mut out, ", ");
    push_quoted(&mut out, "response", response.as_str());
    push_text(&mut out, ", algorithm=MD5");
    assert(realm@ =~= param_or_empty(challenge@, "realm"@));
    assert(nonce@ =~= param_or_empty(challenge@, "nonce"@));
    let ghost base = "Digest "@ + quoted("username"@, username@) + ", "@ + quoted(
        "realm"@,
        realm@,
    ) + ", "@ + quoted("nonce"@, nonce@) + ", "@ + quoted("uri"@, uri@) + ", "@ + quoted(
        "response"@,
        response@,
    ) + ", algorithm=MD5"@;
    assert(out@ =~= base);
    match qop {
        Some(q) => {
            let qc = chars_of(q);
            let auth = chars_of("auth");
            if has_text(&qc, &auth) {
                push_text(&mut out, ", qop=auth, nc=");
                push_text(&mut out, nc_str.as_str());
                push_text(&mut out, ", ");
                push_quoted(&mut out, "cnonce", cnonce);
            }
        },
        None => {},
    }
    match get_param(challenge, "opaque") {
        Some(o) => {
            push_text(&mut out, ", ");
            push_quoted(&mut out, "opaque", o);
        },
        None => {},
    }
    assert(out@ =~= want);
    out
}

/// A challenge with a realm and a nonce.
pub open spec fn challenge_text(realm: Seq<char>, nonce: Seq<char>) -> Seq<char> {
    "Digest "@ + quoted("realm"@, realm) + ", "@ + quoted("nonce"@, nonce) + ", "@ + quoted(
        "qop"@,
        "auth"@,
    ) + ", "@ + quoted("opaque"@, digest::md5_text(digest::colon(realm, "sip"@))) + ", algorithm=MD5"@
}

/// Builds a challenge.
pub fn build_challenge(realm: &str, nonce: &str) -> (r: String)
    ensures
        r@ == challenge_text(realm@, nonce@),
{
    let opaque = md5_hex(join_colon(realm, "sip").as_str());
    let mut out = String::new();
    push_text(&mut out, "Digest ");
    push_quoted(&mut out, "realm", realm);
    push_text(&mut out, ", ");
    push_quoted(&mut out, "nonce", nonce);
    push_text(&mut out, ", ");
    push_quoted(&mut out, "qop", "auth");
    push_text(&mut out, ", ");
    push_quoted(&mut out, "opaque", opaque.as_str());
    push_text(&mut out, ", algorithm=MD5");
    assert(out@ =~= challenge_text(realm@, nonce@));
    out
}

} // verus!

//! HTTP and SIP digest authentication: hashing and parameter lists.
use crate::ids;
use crate::protocol::hex_char;
use crate::scan;
use crate::scan::{copy_chars, without_ends};
use crate::table::Table;
use crate::text;
use crate::text::{
    chars_of, find_char_from, has_prefix, push_text, string_of, text_bytes, to_lower, trim_chars,
};
use vstd::prelude::*;
use vstd::slice::slice_subrange;

verus! {

/// The MD5 digest of some bytes.
pub uninterp spec fn md5_sum(b: Seq<u8>) -> Seq<u8>;

/// `md5::compute`: sixteen bytes fixed by the input alone. How they follow from
/// it is not stated.
#[verifier::external_body]
fn md5_compute(b: &[u8]) -> (r: [u8; 16])
    ensures
        r@ == md5_sum(b@),
{
    md5::compute(b).0
}

/// Lower-case hexadecimal MD5 digest of a text.
pub open spec fn md5_text(s: Seq<char>) -> Seq<char> {
    ids::hex_text(md5_sum(vstd::utf8::encode_utf8(s)))
}

/// Spells bytes in lower-case hexadecimal.
pub fn hex_string(b: &[u8]) -> (r: String)
    ensures
        r@ == ids::hex_text(b@),
{
    let mut out = String::new();
    let mut i: usize = 0;
    assert(b@.subrange(0, 0) =~= Seq::<u8>::empty());
    while i < b.len()
        invariant
            i <= b@.len(),
            out@ == ids::hex_text(b@.subrange(0, i as int)),
        decreases b@.len() - i,
    {
        out.push(hex_char(b[i] / 16));
        out.push(hex_char(b[i] % 16));
        i += 1;
        assert(b@.subrange(0, i as int).drop_last() =~= b@.subrange(0, i - 1));
    }
    assert(b@.subrange(0, i as int) =~= b@);
    out
}

/// Hashes a text.
pub fn md5_hex(input: &str) -> (r: String)
    ensures
        r@ == md5_text(input@),
{
    let b = text_bytes(input);
    let d = md5_compute(&b);
    hex_string(&d)
}

/// Texts joined by colons.
pub open spec fn colon(a: Seq<char>, b: Seq<char>) -> Seq<char> {
    a + ":"@ + b
}

/// Joins two texts by a colon.
pub fn join_colon(a: &str, b: &str) -> (r: String)
    ensures
        r@ == colon(a@, b@),
{
    let mut out = a.to_owned();
    push_text(&mut out, ":");
    push_text(&mut out, b);
    out
}

/// What is hashed for a response, from the hashed credentials, the hashed
/// request, the nonce, and what quality of protection adds to it.
pub open spec fn response_input(
    ha1: Seq<char>,
    ha2: Seq<char>,
    nonce: Seq<char>,
    counted: Option<(Seq<char>, Seq<char>)>,
) -> Seq<char> {
    match counted {
        Some((nc, cnonce)) => colon(
            colon(colon(colon(colon(ha1, nonce), nc), cnonce), "auth"@),
            ha2,
        ),
        None => colon(colon(ha1, nonce), ha2),
    }
}

/// Spells what is hashed for a response.
pub fn response_text(ha1: &str, ha2: &str, nonce: &str, counted: Option<(&str, &str)>) -> (r: String)
    ensures
        r@ == response_input(
            ha1@,
            ha2@,
            nonce@,
            match counted {
                Some((nc, cnonce)) => Some((nc@, cnonce@)),
                None => None,
            },
        ),
{
    let base = join_colon(ha1, nonce);
    match counted {
        Some((nc, cnonce)) => {
            let a = join_colon(base.as_str(), nc);
            let b = join_colon(a.as_str(), cnonce);
            let c = join_colon(b.as_str(), "auth");
            join_colon(c.as_str(), ha2)
        },
        None => join_colon(base.as_str(), ha2),
    }
}

/// The response that proves knowledge of a password.
pub open spec fn digest_response(
    username: Seq<char>,
    realm: Seq<char>,
    password: Seq<char>,
    method: Seq<char>,
    uri: Seq<char>,
    nonce: Seq<char>,
    counted: Option<(Seq<char>, Seq<char>)>,
) -> Seq<char> {
    let ha1 = md5_text(colon(colon(username, realm), password));
    let ha2 = md5_text(colon(method, uri));
    md5_text(response_input(ha1, ha2, nonce, counted))
}

/// Computes the response that proves knowledge of a password.
pub fn make_response(
    username: &str,
    realm: &str,
    password: &str,
    method: &str,
    uri: &str,
    nonce: &str,
    counted: Option<(&str, &str)>,
) -> (r: String)
    ensures
        r@ == digest_response(
            username@,
            realm@,
            password@,
            method@,
            uri@,
            nonce@,
            match counted {
                Some((nc, cnonce)) => Some((nc@, cnonce@)),
                None => None,
            },
        ),
{
    let user_realm = join_colon(username, realm);
    let ha1 = md5_hex(join_colon(user_realm.as_str(), password).as_str());
    let ha2 = md5_hex(join_colon(method, uri).as_str());
    md5_hex(response_text(ha1.as_str(), ha2.as_str(), nonce, counted).as_str())
}

/// Key and value of one parameter: the key in lower case, the value without
/// the quotes around it.
pub open spec fn param_entry(part: Seq<char>) -> Option<(Seq<char>, Seq<char>)> {
    let k = text::find_char(part, '=', 0);
    if k < part.len() {
        Some((text::lower_text(text::trim(part.subrange(0, k))), scan::strip_both(text::trim(scan::rest(part, k + 1)), '"')))
    } else {
        None
    }
}

/// The parameters in some parts; a later one replaces an earlier one.
pub open spec fn params_of(parts: Seq<Seq<char>>) -> Map<Seq<char>, Seq<char>>
    decreases parts.len(),
{
    if parts.len() == 0 {
        Map::empty()
    } else {
        let before = params_of(parts.drop_last());
        match param_entry(parts.last()) {
            Some((k, v)) => before.insert(k, v),
            None => before,
        }
    }
}

/// Parameters by name.
pub type Params = Table<String, String>;

/// Reads the parameters in some parts.
pub fn read_params(parts: &Vec<Vec<char>>) -> (r: Params)
    ensures
        r@ == params_of(scan::views(parts@)),
{
    let mut out: Params = Table::new();
    let mut i: usize = 0;
    assert(scan::views(parts@).subrange(0, 0) =~= Seq::<Seq<char>>::empty());
    while i < parts.len()
        invariant
            i <= parts@.len(),
            out@ == params_of(scan::views(parts@).subrange(0, i as int)),
        decreases parts@.len() - i,
    {
        let part = parts[i].as_slice();
        proof {
            let b = scan::views(parts@).subrange(0, i + 1);
            assert(b.drop_last() =~= scan::views(parts@).subrange(0, i as int));
            assert(b.last() == part@);
        }
        let k: usize = find_char_from(part, '=', 0);
        if k < part.len() {
            let name = to_lower(trim_chars(slice_subrange(part, 0, k)));
            let value = without_ends(
                trim_chars(slice_subrange(part, k + 1, part.len())),
                '"',
            );
            out.insert(string_of(&name), string_of(value));
        }
        i += 1;
    }
    assert(scan::views(parts@).subrange(0, i as int) =~= scan::views(parts@));
    out
}

/// A header value without the name of the scheme in front.
pub open spec fn without_digest(header: Seq<char>) -> Seq<char> {
    let t = text::trim(header);
    if text::starts_with(t, "Digest "@) {
        scan::rest(t, "Digest "@.len() as int)
    } else {
        t
    }
}

/// Drops the name of the scheme in front of a header value.
pub fn strip_digest(header: &str) -> (r: Vec<char>)
    ensures
        r@ == without_digest(header@),
{
    let h = chars_of(header);
    let t = trim_chars(&h);
    let scheme = chars_of("Digest ");
    if has_prefix(t, &scheme) {
        copy_chars(t, scheme.len(), t.len())
    } else {
        let r = copy_chars(t, 0, t.len());
        assert(r@ =~= t@);
        r
    }
}

/// The value of a parameter.
pub open spec fn param(p: Map<Seq<char>, Seq<char>>, name: Seq<char>) -> Option<Seq<char>> {
    if p.dom().contains(name) {
        Some(p[name])
    } else {
        None
    }
}

/// Looks up a parameter.
pub fn get_param<'a>(p: &'a Params, name: &str) -> (r: Option<&'a str>)
    ensures
        match r {
            Some(v) => param(p@, name@) == Some(v@),
            None => param(p@, name@) is None,
        },
{
    let key = name.to_owned();
    match p.get(&key) {
        Some(v) => Some(v.as_str()),
        None => None,
    }
}

/// A parameter is its name, whatever the case, an equals sign and its value, in quotes or
/// not; the last one of a name counts, and a part without an equals sign does not.
pub proof fn parameters_are_read(
    parts: Seq<Seq<char>>,
    name: Seq<char>,
    value: Seq<char>,
    other: Seq<char>,
)
    requires
        !name.contains('='),
        !other.contains('='),
        value.len() > 0,
        !text::is_space(value[0]) && !text::is_space(value.last()),
        value[0] != '"' && value.last() != '"',
    ensures
        ({
            let key = text::lower_text(text::trim(name));
            let plain = params_of(parts.push(name + seq!['='] + value));
            let quoted = params_of(parts.push(name + seq!['=', '"'] + value + seq!['"']));
            &&& plain == params_of(parts).insert(key, value)
            &&& quoted == plain
            &&& params_of(parts.push(other)) == params_of(parts)
        }),
{
    let n = name.len() as int;
    let a = name + seq!['='] + value;
    let b = name + seq!['=', '"'] + value + seq!['"'];
    let q = seq!['"'] + value + seq!['"'];
    assert(a[n] == '=' && b[n] == '=');
    assert(a.subrange(0, n) =~= name);
    assert(b.subrange(0, n) =~= name);
    name_ends(a, name);
    name_ends(b, name);
    assert(scan::rest(a, n + 1) =~= value);
    assert(scan::rest(b, n + 1) =~= q);
    assert(text::trim(value) == value);
    quote_is_no_space();
    assert(text::trim(q) == q);
    assert(scan::strip_both(value, '"') == value);
    assert(q.drop_first() =~= value + seq!['"']);
    assert((value + seq!['"'])[0] == value[0]);
    assert(scan::strip_front(q, '"') == value + seq!['"']) by {
        reveal_with_fuel(scan::strip_front, 2);
    }
    assert((value + seq!['"']).drop_last() =~= value);
    assert(scan::strip_back(value + seq!['"'], '"') == value) by {
        reveal_with_fuel(scan::strip_back, 2);
    }
    assert(parts.push(a).drop_last() =~= parts);
    assert(parts.push(b).drop_last() =~= parts);
    assert(parts.push(other).drop_last() =~= parts);
    text::find_char_is_first(other, '=', 0);
    if text::find_char(other, '=', 0) < other.len() {
        assert(other.contains('='));
    }
}

proof fn quote_is_no_space()
    ensures
        !text::is_space('"'),
{
}

proof fn name_ends(s: Seq<char>, name: Seq<char>)
    requires
        !name.contains('='),
        name.len() < s.len(),
        s.subrange(0, name.len() as int) == name,
        s[name.len() as int] == '=',
    ensures
        text::find_char(s, '=', 0) == name.len(),
{
    text::find_char_is_first(s, '=', 0);
    let f = text::find_char(s, '=', 0);
    if f < name.len() {
        assert(s.subrange(0, name.len() as int)[f] == s[f]);
        assert(name.contains('='));
    }
    if f > name.len() {
        assert(s[name.len() as int] != '=');
    }
}

/// The response to a challenge is what the standard says: the hash of the hashed
/// credentials, the nonce and the hashed request, parted by colons, with the counter, the
/// client's nonce and `auth` between them where quality of protection was asked for.
pub proof fn responses_follow_the_scheme(
    user: Seq<char>,
    realm: Seq<char>,
    password: Seq<char>,
    method: Seq<char>,
    uri: Seq<char>,
    nonce: Seq<char>,
    nc: Seq<char>,
    cnonce: Seq<char>,
)
    ensures
        ({
            let ha1 = md5_text(user + ":"@ + realm + ":"@ + password);
            let ha2 = md5_text(method + ":"@ + uri);
            &&& digest_response(user, realm, password, method, uri, nonce, None) == md5_text(
                ha1 + ":"@ + nonce + ":"@ + ha2,
            )
            &&& digest_response(user, realm, password, method, uri, nonce, Some((nc, cnonce)))
                == md5_text(
                ha1 + ":"@ + nonce + ":"@ + nc + ":"@ + cnonce + ":"@ + "auth"@ + ":"@ + ha2,
            )
        }),
{
}

} // verus!

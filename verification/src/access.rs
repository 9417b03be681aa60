//! Who may use the telemetry, control and dashboard listeners: HTTP basic
//! authentication and what follows from it.
use crate::protocol;
use crate::scan;
use crate::scan::split_char;
use crate::table::Table;
use crate::text;
use crate::text::{
    chars_of, find_char_from, has_prefix, push_text, same_chars, same_text, string_of, trim_chars,
    utf8_text,
};
use base64::Engine;
use vstd::prelude::*;
use vstd::slice::slice_subrange;

verus! {

/// What the standard base64 alphabet makes of a text.
pub uninterp spec fn base64_decoded(s: Seq<char>) -> Option<Seq<u8>>;

/// `base64::engine::general_purpose::STANDARD.decode`: the bytes that a padded
/// base64 text stands for, or nothing where it is malformed; fixed by the text
/// alone. Which texts are malformed is not stated.
#[verifier::external_body]
fn base64_decode(s: &str) -> (r: Option<Vec<u8>>)
    ensures
        match r {
            Some(v) => base64_decoded(s@) == Some(v@),
            None => base64_decoded(s@) is None,
        },
{
    base64::engine::general_purpose::STANDARD.decode(s).ok()
}

/// The user that credentials prove: they hold a user name and, after a colon,
/// the password of that user.
pub open spec fn credentials_user(
    users: Map<Seq<char>, Seq<char>>,
    decoded: Option<Seq<u8>>,
) -> Option<Seq<char>> {
    match decoded {
        Some(b) => if vstd::utf8::valid_utf8(b) {
            let t = vstd::utf8::decode_utf8(b);
            let k = text::find_char(t, ':', 0);
            if k < t.len() && users.dom().contains(t.subrange(0, k)) && users[t.subrange(0, k)]
                == scan::rest(t, k + 1) {
                Some(t.subrange(0, k))
            } else {
                None
            }
        } else {
            None
        },
        None => None,
    }
}

/// The bytes of optional credentials.
pub open spec fn opt_bytes(o: Option<Vec<u8>>) -> Option<Seq<u8>> {
    match o {
        Some(v) => Some(v@),
        None => None,
    }
}

/// The user that decoded credentials prove.
pub fn check_credentials(users: &Table<String, String>, decoded: Option<Vec<u8>>) -> (r: Option<
    String,
>)
    ensures
        protocol::opt_text(r) == credentials_user(users@, opt_bytes(decoded)),
{
    let bytes = match decoded {
        Some(b) => b,
        None => {
            return None;
        },
    };
    let text = match utf8_text(&bytes) {
        Some(t) => t,
        None => {
            return None;
        },
    };
    let t = chars_of(text.as_str());
    let k: usize = find_char_from(&t, ':', 0);
    if k >= t.len() {
        return None;
    }
    let user = string_of(slice_subrange(&t, 0, k));
    let pass = string_of(slice_subrange(&t, k + 1, t.len()));
    match users.get(&user) {
        Some(p) => {
            if same_text(p.as_str(), pass.as_str()) {
                Some(user)
            } else {
                None
            }
        },
        None => None,
    }
}

/// The user that an `Authorization` header proves.
pub open spec fn header_user(
    users: Map<Seq<char>, Seq<char>>,
    header: Option<Seq<char>>,
) -> Option<Seq<char>> {
    match header {
        Some(h) => if text::starts_with(h, "Basic "@) {
            credentials_user(users, base64_decoded(scan::rest(h, "Basic "@.len() as int)))
        } else {
            None
        },
        None => None,
    }
}

/// The characters of an optional header.
pub open spec fn opt_header(o: Option<&str>) -> Option<Seq<char>> {
    match o {
        Some(s) => Some(s@),
        None => None,
    }
}

/// Validates basic credentials and gives the user that they prove.
pub fn basic_username(users: &Table<String, String>, header: Option<&str>) -> (r: Option<String>)
    ensures
        protocol::opt_text(r) == header_user(users@, opt_header(header)),
{
    let h = match header {
        Some(h) => chars_of(h),
        None => {
            return None;
        },
    };
    let scheme = chars_of("Basic ");
    if !has_prefix(&h, &scheme) {
        return None;
    }
    let b64 = string_of(slice_subrange(&h, scheme.len(), h.len()));
    check_credentials(users, base64_decode(b64.as_str()))
}

/// Identity of an authenticated connection: the user name, or nothing where the
/// listener has no users.
pub type Identity = Option<String>;

/// Admits a connection: anybody where no users are configured, else whoever
/// proves to be one of them.
pub fn verify_basic(users: &Table<String, String>, header: Option<&str>) -> (r: Result<Identity, ()>)
    ensures
        match r {
            Ok(None) => users@.len() == 0,
            Ok(Some(u)) => users@.len() != 0 && header_user(users@, opt_header(header)) == Some(
                u@,
            ),
            Err(_) => users@.len() != 0 && header_user(users@, opt_header(header)) is None,
        },
{
    if users.is_empty() {
        return Ok(None);
    }
    match basic_username(users, header) {
        Some(u) => Ok(Some(u)),
        None => Err(()),
    }
}

/// Challenge for basic credentials.
pub open spec fn basic_challenge_text(realm: Seq<char>) -> Seq<char> {
    "Basic realm=\""@ + realm + "\""@
}

pub fn basic_challenge(realm: &str) -> (r: String)
    ensures
        r@ == basic_challenge_text(realm@),
{
    let mut out = "Basic realm=\"".to_owned();
    push_text(&mut out, realm);
    push_text(&mut out, "\"");
    out
}

/// Whether a list of sub-protocols offers a given one.
pub open spec fn offers(list: Seq<char>, subprotocol: Seq<char>) -> bool {
    exists|i: int|
        0 <= i < scan::pieces(list, ',').len() && text::trim(#[trigger] scan::pieces(list, ',')[i]) == subprotocol
}

/// Tests whether a list of sub-protocols offers a given one.
pub fn offers_subprotocol(list: &str, subprotocol: &str) -> (r: bool)
    ensures
        r == offers(list@, subprotocol@),
{
    let l = chars_of(list);
    let want = chars_of(subprotocol);
    let parts = split_char(&l, ',');
    let mut i: usize = 0;
    while i < parts.len()
        invariant
            i <= parts@.len(),
            scan::views(parts@) == scan::pieces(list@, ','),
            want@ == subprotocol@,
            forall|k: int|
                0 <= k < i ==> text::trim(#[trigger] scan::pieces(list@, ',')[k]) != subprotocol@,
        decreases parts@.len() - i,
    {
        assert(scan::views(parts@)[i as int] == parts@[i as int]@);
        if same_chars(trim_chars(parts[i].as_slice()), &want) {
            return true;
        }
        i += 1;
    }
    false
}

/// What becomes of a request to open a telemetry or control connection.
pub enum Upgrade {
    /// Ask for credentials, with this challenge.
    Challenge(String),
    /// Refuse: the expected sub-protocol is not offered.
    Mismatch,
    Accept(Identity),
}

/// Decides on a request to open a telemetry or control connection.
pub fn upgrade_decision(
    name: &str,
    users: &Table<String, String>,
    subprotocol: &str,
    authorization: Option<&str>,
    offered: Option<&str>,
) -> (r: Upgrade)
    ensures
        ({
            let user = header_user(users@, opt_header(authorization));
            let admitted = users@.len() == 0 || user is Some;
            let agreed = offers(
                match offered {
                    Some(o) => o@,
                    None => Seq::empty(),
                },
                subprotocol@,
            );
            match r {
                Upgrade::Challenge(c) => !admitted && c@ == basic_challenge_text(name@),
                Upgrade::Mismatch => admitted && !agreed,
                Upgrade::Accept(id) => admitted && agreed && protocol::opt_text(id) == (if users@.len()
                    == 0 {
                    None
                } else {
                    user
                }),
            }
        }),
{
    let identity = match verify_basic(users, authorization) {
        Ok(identity) => identity,
        Err(_) => {
            return Upgrade::Challenge(basic_challenge(name));
        },
    };
    let list = match offered {
        Some(o) => o,
        None => {
            proof {
                reveal_strlit("");
                assert(""@ =~= Seq::<char>::empty());
            }
            ""
        },
    };
    if !offers_subprotocol(list, subprotocol) {
        return Upgrade::Mismatch;
    }
    Upgrade::Accept(identity)
}

/// Texts of a list.
pub open spec fn texts(v: Seq<String>) -> Seq<Seq<char>> {
    v.map_values(|s: String| s@)
}

/// Whether a user may change the configuration: everybody while no users are
/// configured; every user while no administrators are; else the administrators.
pub open spec fn may_administer(
    users: Map<Seq<char>, Seq<char>>,
    admins: Seq<Seq<char>>,
    user: Option<Seq<char>>,
) -> bool {
    users.len() == 0 || (user is Some && (admins.len() == 0 || admins.contains(user->0)))
}

/// Tests whether a list of names holds one.
fn lists(names: &Vec<String>, name: &str) -> (r: bool)
    ensures
        r == texts(names@).contains(name@),
{
    let mut i: usize = 0;
    while i < names.len()
        invariant
            i <= names@.len(),
            forall|k: int| 0 <= k < i ==> #[trigger] texts(names@)[k] != name@,
        decreases names@.len() - i,
    {
        assert(texts(names@)[i as int] == names@[i as int]@);
        if same_text(names[i].as_str(), name) {
            assert(texts(names@).contains(name@));
            return true;
        }
        i += 1;
    }
    false
}

/// Who a dashboard request comes from, and whether that user may change the
/// configuration.
pub fn whoami(
    users: &Table<String, String>,
    admins: &Vec<String>,
    authorization: Option<&str>,
) -> (r: (Option<String>, bool))
    ensures
        protocol::opt_text(r.0) == header_user(users@, opt_header(authorization)),
        r.1 == may_administer(
            users@,
            texts(admins@),
            header_user(users@, opt_header(authorization)),
        ),
{
    let user = basic_username(users, authorization);
    let open = users.is_empty();
    assert(texts(admins@).len() == admins@.len());
    let admin = match &user {
        Some(u) => open || admins.len() == 0 || lists(admins, u.as_str()),
        None => open,
    };
    (user, admin)
}

/// Whether a dashboard request is let through: anybody while no users are
/// configured, else a user.
pub fn require_basic(users: &Table<String, String>, authorization: Option<&str>) -> (r: bool)
    ensures
        r == (users@.len() == 0 || header_user(users@, opt_header(authorization)) is Some),
{
    users.is_empty() || basic_username(users, authorization).is_some()
}

/// Whether a request to the settings is let through. Credentials have been
/// checked before; while no administrators are configured they suffice.
pub fn require_admin(
    users: &Table<String, String>,
    admins: &Vec<String>,
    authorization: Option<&str>,
) -> (r: bool)
    ensures
        r == (users@.len() == 0 || admins@.len() == 0 || (header_user(
            users@,
            opt_header(authorization),
        ) matches Some(u) && texts(admins@).contains(u))),
{
    if users.is_empty() || admins.len() == 0 {
        return true;
    }
    match basic_username(users, authorization) {
        Some(u) => lists(admins, u.as_str()),
        None => false,
    }
}

/// A request that passes both guards of the settings comes from somebody who
/// may administer, and the other way round.
pub proof fn guards_agree_with_whoami(
    users: Map<Seq<char>, Seq<char>>,
    admins: Seq<Seq<char>>,
    header: Option<Seq<char>>,
)
    ensures
        ({
            let user = header_user(users, header);
            let basic = users.len() == 0 || user is Some;
            let admin = users.len() == 0 || admins.len() == 0 || (user is Some && admins.contains(
                user->0,
            ));
            basic && admin <==> may_administer(users, admins, user)
        }),
{
}

/// Nobody proves to be a user that is not configured.
pub proof fn only_configured_users_are_proved(
    users: Map<Seq<char>, Seq<char>>,
    header: Option<Seq<char>>,
)
    ensures
        header_user(users, header) matches Some(u) ==> users.dom().contains(u),
{
}

/// Credentials prove a user exactly when they hold that user's password: a user name,
/// which has no colon, a colon and the password.
pub proof fn matching_credentials_are_accepted(
    users: Map<Seq<char>, Seq<char>>,
    user: Seq<char>,
    password: Seq<char>,
)
    requires
        !user.contains(':'),
    ensures
        credentials_user(
            users,
            Some(vstd::utf8::encode_utf8(user + ":"@ + password)),
        ) == (if users.dom().contains(user) && users[user] == password {
            Some(user)
        } else {
            None
        }),
{
    reveal_strlit(":");
    let t = user + ":"@ + password;
    vstd::utf8::encode_utf8_valid_utf8(t);
    vstd::utf8::encode_utf8_decode_utf8(t);
    text::find_char_is_first(t, ':', 0);
    let k = text::find_char(t, ':', 0);
    assert(t[user.len() as int] == ':');
    assert(k == user.len()) by {
        if k < user.len() {
            assert(user[k] == t[k]);
            assert(user.contains(':'));
        }
    }
    assert(t.subrange(0, k) =~= user);
    assert(scan::rest(t, k + 1) =~= password);
}

/// Everybody may change the settings while nobody is configured. Otherwise a proven user
/// may: any while no administrators are named, and else only those.
pub proof fn administrators_may_change_the_settings(
    users: Map<Seq<char>, Seq<char>>,
    admins: Seq<Seq<char>>,
    user: Seq<char>,
    i: int,
)
    ensures
        users.len() == 0 ==> may_administer(users, admins, None) && may_administer(
            users,
            admins,
            Some(user),
        ),
        users.len() > 0 ==> !may_administer(users, admins, None),
        users.len() > 0 && admins.len() == 0 ==> may_administer(users, admins, Some(user)),
        users.len() > 0 && 0 <= i < admins.len() ==> may_administer(users, admins, Some(admins[i])),
        users.len() > 0 && admins.len() > 0 && (forall|k: int|
            0 <= k < admins.len() ==> #[trigger] admins[k] != user) ==> !may_administer(
            users,
            admins,
            Some(user),
        ),
{
}

/// A list of sub-protocols offers what one of its parts names, with or without white space
/// around it.
pub proof fn lists_offer_their_parts(a: Seq<char>, b: Seq<char>, p: Seq<char>)
    requires
        !a.contains(','),
    ensures
        offers(a, p) <==> text::trim(a) == p,
        offers(a + seq![','] + b, p) <==> text::trim(a) == p || offers(b, p),
{
    text::find_char_is_first(a, ',', 0);
    if text::find_char(a, ',', 0) < a.len() {
        assert(a.contains(','));
    }
    assert(scan::pieces(a, ',') == seq![a]);
    if text::trim(a) == p {
        assert(text::trim(scan::pieces(a, ',')[0]) == p);
    }
    let s = a + seq![','] + b;
    let n = a.len() as int;
    assert(s[n] == ',');
    text::find_char_is_first(s, ',', 0);
    let f = text::find_char(s, ',', 0);
    if f < n {
        assert(a[f] == s[f]);
        assert(a.contains(','));
    }
    if f > n {
        assert(s[n] != ',');
    }
    assert(s.subrange(0, n) =~= a);
    assert(scan::rest(s, n + 1) =~= b);
    let all = scan::pieces(s, ',');
    let more = scan::pieces(b, ',');
    assert(all == seq![a] + more);
    if offers(s, p) {
        let i = choose|i: int| 0 <= i < all.len() && text::trim(#[trigger] all[i]) == p;
        if i > 0 {
            assert(all[i] == more[i - 1]);
        }
    }
    if text::trim(a) == p {
        assert(text::trim(all[0]) == p);
    }
    if offers(b, p) {
        let i = choose|i: int| 0 <= i < more.len() && text::trim(#[trigger] more[i]) == p;
        assert(all[i + 1] == more[i]);
        assert(text::trim(all[i + 1]) == p);
    }
}

/// Only an authorization of the basic scheme counts, by the credentials that it encodes.
pub proof fn basic_credentials_count(users: Map<Seq<char>, Seq<char>>, coded: Seq<char>, h: Seq<char>)
    ensures
        header_user(users, Some("Basic "@ + coded)) == credentials_user(
            users,
            base64_decoded(coded),
        ),
        header_user(users, None) is None,
        (h.len() < 6 || h.subrange(0, 6) != "Basic "@) ==> header_user(users, Some(h)) is None,
        credentials_user(users, None) is None,
{
    reveal_strlit("Basic ");
    let h1 = "Basic "@ + coded;
    assert(h1.subrange(0, 6) =~= "Basic "@);
    assert(scan::rest(h1, 6) =~= coded);
}

} // verus!

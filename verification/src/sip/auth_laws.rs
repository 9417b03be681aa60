//! What the two sides of digest authentication promise each other.
use crate::digest;
use crate::ids;
use crate::scan;
use crate::server;
use crate::sip::auth;
use crate::sip::auth::QuoteState;
use crate::table;
use crate::text;
use vstd::prelude::*;

verus! {

/// A text without quotes.
pub open spec fn unquoted(s: Seq<char>) -> bool {
    forall|i: int| 0 <= i < s.len() ==> #[trigger] s[i] != '"'
}

/// A lower-case word without quotes, commas and equal signs.
pub open spec fn bare_word(s: Seq<char>) -> bool {
    &&& s.len() > 0
    &&& forall|i: int|
        0 <= i < s.len() ==> #[trigger] s[i] != '"' && s[i] != ',' && s[i] != '=' && !text::is_space(s[i])
            && text::lower(s[i]) == s[i]
}

/// A text without quotes, commas and white space.
pub open spec fn bare_value(s: Seq<char>) -> bool {
    &&& s.len() > 0
    &&& forall|i: int|
        0 <= i < s.len() ==> #[trigger] s[i] != '"' && s[i] != ',' && !text::is_space(s[i])
}

/// A text that is read as a whole: no comma in it cuts.
spec fn closed_part(p: Seq<char>) -> bool {
    forall|b: QuoteState|
        !b.quoted ==> #[trigger] auth::quote_run(b, p) == (QuoteState { current: b.current + p, ..b })
}

proof fn run_concat(b: QuoteState, a: Seq<char>, c: Seq<char>)
    ensures
        auth::quote_run(b, a + c) == auth::quote_run(auth::quote_run(b, a), c),
    decreases c.len(),
{
    if c.len() == 0 {
        assert(a + c =~= a);
    } else {
        run_concat(b, a, c.drop_last());
        assert((a + c).drop_last() =~= a + c.drop_last());
    }
}

proof fn run_plain(b: QuoteState, s: Seq<char>)
    requires
        unquoted(s),
        b.quoted || forall|i: int| 0 <= i < s.len() ==> #[trigger] s[i] != ',',
    ensures
        auth::quote_run(b, s) == (QuoteState { current: b.current + s, ..b }),
    decreases s.len(),
{
    if s.len() == 0 {
        assert(b.current + s =~= b.current);
    } else {
        let init = s.drop_last();
        assert(forall|i: int| 0 <= i < init.len() ==> #[trigger] init[i] == s[i]);
        run_plain(b, init);
        assert((b.current + init).push(s.last()) =~= b.current + s);
        assert(s[s.len() - 1] != '"');
    }
}

proof fn run_quote(b: QuoteState)
    ensures
        auth::quote_run(b, "\""@) == (QuoteState {
            current: b.current + "\""@,
            quoted: !b.quoted,
            ..b
        }),
{
    reveal_strlit("\"");
    let s = "\""@;
    assert(s.drop_last() =~= Seq::<char>::empty());
    assert(auth::quote_run(b, s.drop_last()) == b);
    assert(b.current.push('"') =~= b.current + s);
}

proof fn trim_same(s: Seq<char>)
    requires
        s.len() > 0,
        !text::is_space(s[0]),
        !text::is_space(s.last()),
    ensures
        text::trim(s) == s,
{
}

proof fn trim_after_blank(s: Seq<char>)
    requires
        s.len() > 0,
        !text::is_space(s[0]),
        !text::is_space(s.last()),
    ensures
        text::trim(" "@ + s) == s,
{
    reveal_strlit(" ");
    let t = " "@ + s;
    assert(t[0] == ' ');
    assert(text::is_space(t[0]));
    assert(t.drop_first() =~= s);
    assert(text::trim_start(t) == text::trim_start(s));
}

proof fn find_first(s: Seq<char>, c: char, k: int)
    requires
        0 <= k < s.len(),
        s[k] == c,
        forall|i: int| 0 <= i < k ==> #[trigger] s[i] != c,
    ensures
        text::find_char(s, c, 0) == k,
{
    text::find_char_is_first(s, c, 0);
    let f = text::find_char(s, c, 0);
    if f < k {
        assert(s[f] != c);
    }
}

proof fn strip_quotes(v: Seq<char>)
    requires
        unquoted(v),
    ensures
        scan::strip_both("\""@ + v + "\""@, '"') == v,
{
    reveal_strlit("\"");
    let s = "\""@ + v + "\""@;
    assert(s[0] == '"');
    assert(s.drop_first() =~= v + "\""@);
    let t = v + "\""@;
    if v.len() == 0 {
        assert(t[0] == '"');
        assert(t.drop_first() =~= Seq::<char>::empty());
        assert(scan::strip_front(t, '"') == scan::strip_front(Seq::<char>::empty(), '"'));
        assert(scan::strip_both(s, '"') =~= v);
    } else {
        assert(t[0] == v[0]);
        assert(scan::strip_front(t, '"') == t);
        assert(t.last() == '"');
        assert(t.drop_last() =~= v);
        assert(v.last() == v[v.len() - 1]);
        assert(scan::strip_back(t, '"') == scan::strip_back(v, '"'));
        assert(scan::strip_back(v, '"') == v);
    }
}

/// One part of a parameter list, with the parameter that it spells.
spec fn part_ok(p: Seq<char>, key: Seq<char>, value: Seq<char>) -> bool {
    &&& closed_part(p)
    &&& digest::param_entry(p) == Some((key, value))
    &&& digest::param_entry(" "@ + p) == Some((key, value))
    &&& text::trim(p).len() > 0
    &&& text::trim(" "@ + p).len() > 0
}

proof fn entry_of(p: Seq<char>, key: Seq<char>, tail: Seq<char>, value: Seq<char>)
    requires
        bare_word(key),
        p == key + "="@ + tail,
        scan::strip_both(text::trim(tail), '"') == value,
        p.len() > 0,
        !text::is_space(p.last()),
    ensures
        digest::param_entry(p) == Some((key, value)),
        digest::param_entry(" "@ + p) == Some((key, value)),
        text::trim(p).len() > 0,
        text::trim(" "@ + p).len() > 0,
{
    reveal_strlit("=");
    reveal_strlit(" ");
    let n = key.len() as int;
    assert(key[0] != '=');
    assert forall|i: int| 0 <= i < n implies #[trigger] p[i] != '=' by {
        assert(p[i] == key[i]);
    }
    assert(p[n] == '=');
    find_first(p, '=', n);
    assert(p.subrange(0, n) =~= key);
    assert(key.last() == key[n - 1]);
    trim_same(key);
    assert(text::lower_text(key) =~= key);
    assert(scan::rest(p, n + 1) =~= tail);
    let q = " "@ + p;
    assert forall|i: int| 0 <= i < n + 1 implies #[trigger] q[i] != '=' by {
        if i > 0 {
            assert(q[i] == p[i - 1]);
        }
    }
    assert(q[n + 1] == p[n]);
    find_first(q, '=', n + 1);
    assert(q.subrange(0, n + 1) =~= " "@ + key);
    trim_after_blank(key);
    assert(scan::rest(q, n + 2) =~= tail);
    assert(p[0] == key[0]);
    trim_same(p);
    trim_after_blank(p);
}

proof fn quoted_part(key: Seq<char>, value: Seq<char>)
    requires
        bare_word(key),
        unquoted(value),
    ensures
        part_ok(auth::quoted(key, value), key, value),
{
    reveal_strlit("=\"");
    reveal_strlit("=");
    reveal_strlit("\"");
    let p = auth::quoted(key, value);
    let head = key + "="@;
    assert forall|b: QuoteState| !b.quoted implies #[trigger] auth::quote_run(b, p) == (QuoteState {
        current: b.current + p,
        ..b
    }) by {
        assert(p =~= head + "\""@ + value + "\""@);
        run_concat(b, head + "\""@ + value, "\""@);
        run_concat(b, head + "\""@, value);
        run_concat(b, head, "\""@);
        assert(unquoted(head)) by {
            assert forall|i: int| 0 <= i < head.len() implies #[trigger] head[i] != '"' by {
                if i < key.len() {
                    assert(head[i] == key[i]);
                }
            }
        }
        assert forall|i: int| 0 <= i < head.len() implies #[trigger] head[i] != ',' by {
            if i < key.len() {
                assert(head[i] == key[i]);
            }
        }
        run_plain(b, head);
        let b1 = auth::quote_run(b, head);
        run_quote(b1);
        let b2 = auth::quote_run(b1, "\""@);
        run_plain(b2, value);
        let b3 = auth::quote_run(b2, value);
        run_quote(b3);
        assert(b.current + head + "\""@ + value + "\""@ =~= b.current + p);
    }
    let tail = "\""@ + value + "\""@;
    assert(p =~= key + "="@ + tail);
    assert(tail[0] == '"');
    assert(tail.last() == '"');
    trim_same(tail);
    strip_quotes(value);
    assert(p.last() == '"');
    entry_of(p, key, tail, value);
}

proof fn bare_part(key: Seq<char>, value: Seq<char>)
    requires
        bare_word(key),
        bare_value(value),
    ensures
        part_ok(key + "="@ + value, key, value),
{
    reveal_strlit("=");
    let p = key + "="@ + value;
    assert forall|i: int| 0 <= i < p.len() implies #[trigger] p[i] != '"' && p[i] != ',' by {
        if i < key.len() {
            assert(p[i] == key[i]);
        } else if i > key.len() {
            assert(p[i] == value[i - key.len() - 1]);
        }
    }
    assert forall|b: QuoteState| !b.quoted implies #[trigger] auth::quote_run(b, p) == (QuoteState {
        current: b.current + p,
        ..b
    }) by {
        run_plain(b, p);
    }
    assert(value.last() == value[value.len() - 1]);
    assert(value[0] != '"');
    trim_same(value);
    assert(scan::strip_front(value, '"') == value);
    assert(scan::strip_back(value, '"') == value);
    assert(p.last() == value.last());
    entry_of(p, key, value, value);
}

/// A parameter: its name, its value, and how it is written.
pub struct Part {
    pub key: Seq<char>,
    pub value: Seq<char>,
    pub text: Seq<char>,
}

spec fn list_text(ps: Seq<Part>) -> Seq<char>
    decreases ps.len(),
{
    if ps.len() == 0 {
        Seq::empty()
    } else if ps.len() == 1 {
        ps[0].text
    } else {
        list_text(ps.drop_last()) + ", "@ + ps.last().text
    }
}

spec fn spaced(ps: Seq<Part>) -> Seq<Seq<char>> {
    Seq::new(
        ps.len(),
        |i: int|
            if i == 0 {
                ps[i].text
            } else {
                " "@ + ps[i].text
            },
    )
}

spec fn entries(ps: Seq<Part>) -> Seq<(Seq<char>, Seq<char>)> {
    ps.map_values(|p: Part| (p.key, p.value))
}

spec fn all_ok(ps: Seq<Part>) -> bool {
    forall|i: int|
        0 <= i < ps.len() ==> #[trigger] part_ok(ps[i].text, ps[i].key, ps[i].value)
}

proof fn list_text_push(ps: Seq<Part>, p: Part)
    requires
        ps.len() > 0,
    ensures
        list_text(ps.push(p)) == list_text(ps) + ", "@ + p.text,
{
    assert(ps.push(p).drop_last() =~= ps);
}

proof fn list_run(ps: Seq<Part>)
    requires
        all_ok(ps),
        ps.len() > 0,
    ensures
        auth::quote_run(auth::quote_start(), list_text(ps)) == (QuoteState {
            pieces: spaced(ps).drop_last(),
            current: spaced(ps).last(),
            quoted: false,
        }),
    decreases ps.len(),
{
    let start = auth::quote_start();
    if ps.len() == 1 {
        assert(part_ok(ps[0].text, ps[0].key, ps[0].value));
        assert(auth::quote_run(start, ps[0].text) == (QuoteState {
            current: start.current + ps[0].text,
            ..start
        }));
        assert(start.current + ps[0].text =~= ps[0].text);
        assert(spaced(ps).drop_last() =~= Seq::<Seq<char>>::empty());
    } else {
        let init = ps.drop_last();
        let last = ps.last();
        assert(all_ok(init)) by {
            assert forall|i: int| 0 <= i < init.len() implies #[trigger] part_ok(
                init[i].text,
                init[i].key,
                init[i].value,
            ) by {
                assert(part_ok(ps[i].text, ps[i].key, ps[i].value));
            }
        }
        list_run(init);
        let b = auth::quote_run(start, list_text(init));
        run_concat(start, list_text(init) + ", "@, last.text);
        run_concat(start, list_text(init), ", "@);
        reveal_strlit(", ");
        reveal_strlit(" ");
        let sep = ", "@;
        let comma = sep.drop_last();
        assert(comma.drop_last() =~= Seq::<char>::empty());
        assert(auth::quote_run(b, comma.drop_last()) == b);
        let b1 = auth::quote_run(b, comma);
        assert(b1 == auth::quote_step(b, ','));
        let b2 = auth::quote_run(b, sep);
        assert(b2 == auth::quote_step(b1, ' '));
        assert(b2.current =~= " "@);
        assert(part_ok(last.text, last.key, last.value)) by {
            assert(ps[ps.len() - 1] == last);
        }
        assert(auth::quote_run(b2, last.text) == (QuoteState {
            current: b2.current + last.text,
            ..b2
        }));
        assert(spaced(init) =~= spaced(ps).drop_last());
        assert(spaced(init).drop_last().push(spaced(init).last()) =~= spaced(init));
    }
}

proof fn list_params(ps: Seq<Part>)
    requires
        all_ok(ps),
    ensures
        digest::params_of(spaced(ps)) == table::map_of(entries(ps)),
    decreases ps.len(),
{
    if ps.len() > 0 {
        let init = ps.drop_last();
        let last = ps.last();
        assert(all_ok(init)) by {
            assert forall|i: int| 0 <= i < init.len() implies #[trigger] part_ok(
                init[i].text,
                init[i].key,
                init[i].value,
            ) by {
                assert(part_ok(ps[i].text, ps[i].key, ps[i].value));
            }
        }
        list_params(init);
        assert(spaced(ps).drop_last() =~= spaced(init));
        assert(entries(ps).drop_last() =~= entries(init));
        assert(part_ok(ps[ps.len() - 1].text, ps[ps.len() - 1].key, ps[ps.len() - 1].value));
    }
}

proof fn list_reads_back(ps: Seq<Part>)
    requires
        all_ok(ps),
        ps.len() > 0,
    ensures
        digest::params_of(auth::quoted_pieces(list_text(ps))) == table::map_of(entries(ps)),
{
    list_run(ps);
    list_params(ps);
    let n = ps.len() - 1;
    assert(part_ok(ps[n].text, ps[n].key, ps[n].value));
    assert(spaced(ps).drop_last().push(spaced(ps).last()) =~= spaced(ps));
}

/// A header value that starts with the scheme reads as its parameter list.
proof fn digest_list(ps: Seq<Part>)
    requires
        all_ok(ps),
        ps.len() > 0,
        list_text(ps).len() > 0,
        !text::is_space(list_text(ps).last()),
    ensures
        auth::auth_params("Digest "@ + list_text(ps)) == table::map_of(entries(ps)),
{
    reveal_strlit("Digest ");
    let t = "Digest "@ + list_text(ps);
    assert(t[0] == 'D');
    assert(t.last() == list_text(ps).last());
    trim_same(t);
    assert(t.subrange(0, 7) =~= "Digest "@);
    assert(scan::rest(t, 7) =~= list_text(ps));
    list_reads_back(ps);
}

proof fn hex_is_bare(b: Seq<u8>)
    ensures
        ids::hex_text(b).len() == 2 * b.len(),
        forall|i: int|
            0 <= i < ids::hex_text(b).len() ==> #[trigger] ids::hex_text(b)[i] != '"' && ids::hex_text(b)[i] != ','
                && !text::is_space(ids::hex_text(b)[i]),
    decreases b.len(),
{
    if b.len() > 0 {
        hex_is_bare(b.drop_last());
    }
}

proof fn names_are_bare()
    ensures
        bare_word("username"@),
        bare_word("realm"@),
        bare_word("nonce"@),
        bare_word("uri"@),
        bare_word("response"@),
        bare_word("algorithm"@),
        bare_word("qop"@),
        bare_word("nc"@),
        bare_word("cnonce"@),
        bare_word("opaque"@),
        bare_value("MD5"@),
        bare_value("auth"@),
        unquoted("auth"@),
{
    reveal_strlit("username");
    reveal_strlit("realm");
    reveal_strlit("nonce");
    reveal_strlit("uri");
    reveal_strlit("response");
    reveal_strlit("algorithm");
    reveal_strlit("qop");
    reveal_strlit("nc");
    reveal_strlit("cnonce");
    reveal_strlit("opaque");
    reveal_strlit("MD5");
    reveal_strlit("auth");
}

/// Length and first letter, which tell the parameter names apart.
spec fn sign(s: Seq<char>) -> (nat, char) {
    (s.len(), s[0])
}

proof fn names_differ()
    ensures
        sign("username"@) == (8nat, 'u'),
        sign("realm"@) == (5nat, 'r'),
        sign("nonce"@) == (5nat, 'n'),
        sign("uri"@) == (3nat, 'u'),
        sign("response"@) == (8nat, 'r'),
        sign("algorithm"@) == (9nat, 'a'),
        sign("qop"@) == (3nat, 'q'),
        sign("nc"@) == (2nat, 'n'),
        sign("cnonce"@) == (6nat, 'c'),
        sign("opaque"@) == (6nat, 'o'),
{
    reveal_strlit("username");
    reveal_strlit("realm");
    reveal_strlit("nonce");
    reveal_strlit("uri");
    reveal_strlit("response");
    reveal_strlit("algorithm");
    reveal_strlit("qop");
    reveal_strlit("nc");
    reveal_strlit("cnonce");
    reveal_strlit("opaque");
}

spec fn q(key: Seq<char>, value: Seq<char>) -> Part {
    Part { key, value, text: auth::quoted(key, value) }
}

spec fn bare(key: Seq<char>, value: Seq<char>) -> Part {
    Part { key, value, text: key + "="@ + value }
}

spec fn base_parts(
    username: Seq<char>,
    realm: Seq<char>,
    nonce: Seq<char>,
    uri: Seq<char>,
    response: Seq<char>,
) -> Seq<Part> {
    seq![
        q("username"@, username),
        q("realm"@, realm),
        q("nonce"@, nonce),
        q("uri"@, uri),
        q("response"@, response),
        bare("algorithm"@, "MD5"@),
    ]
}

spec fn base_text(
    username: Seq<char>,
    realm: Seq<char>,
    nonce: Seq<char>,
    uri: Seq<char>,
    response: Seq<char>,
) -> Seq<char> {
    "Digest "@ + auth::quoted("username"@, username) + ", "@ + auth::quoted("realm"@, realm) + ", "@ + auth::quoted(
        "nonce"@,
        nonce,
    ) + ", "@ + auth::quoted("uri"@, uri) + ", "@ + auth::quoted("response"@, response) + ", algorithm=MD5"@
}

proof fn base_list(
    username: Seq<char>,
    realm: Seq<char>,
    nonce: Seq<char>,
    uri: Seq<char>,
    response: Seq<char>,
)
    requires
        unquoted(username),
        unquoted(realm),
        unquoted(nonce),
        unquoted(uri),
        unquoted(response),
    ensures
        all_ok(base_parts(username, realm, nonce, uri, response)),
        base_text(username, realm, nonce, uri, response) == "Digest "@ + list_text(
            base_parts(username, realm, nonce, uri, response),
        ),
{
    names_are_bare();
    quoted_part("username"@, username);
    quoted_part("realm"@, realm);
    quoted_part("nonce"@, nonce);
    quoted_part("uri"@, uri);
    quoted_part("response"@, response);
    bare_part("algorithm"@, "MD5"@);
    let p1 = seq![q("username"@, username)];
    let p2 = p1.push(q("realm"@, realm));
    let p3 = p2.push(q("nonce"@, nonce));
    let p4 = p3.push(q("uri"@, uri));
    let p5 = p4.push(q("response"@, response));
    let p6 = p5.push(bare("algorithm"@, "MD5"@));
    assert(p6 =~= base_parts(username, realm, nonce, uri, response));
    list_text_push(p1, q("realm"@, realm));
    list_text_push(p2, q("nonce"@, nonce));
    list_text_push(p3, q("uri"@, uri));
    list_text_push(p4, q("response"@, response));
    list_text_push(p5, bare("algorithm"@, "MD5"@));
    let d = "Digest "@;
    assert(d + list_text(p2) =~= d + auth::quoted("username"@, username) + ", "@ + auth::quoted(
        "realm"@,
        realm,
    ));
    assert(d + list_text(p3) =~= d + list_text(p2) + ", "@ + auth::quoted("nonce"@, nonce));
    assert(d + list_text(p4) =~= d + list_text(p3) + ", "@ + auth::quoted("uri"@, uri));
    assert(d + list_text(p5) =~= d + list_text(p4) + ", "@ + auth::quoted("response"@, response));
    reveal_strlit(", algorithm=MD5");
    reveal_strlit(", ");
    reveal_strlit("algorithm");
    reveal_strlit("=");
    reveal_strlit("MD5");
    assert(", algorithm=MD5"@ =~= ", "@ + ("algorithm"@ + "="@ + "MD5"@));
    assert(d + list_text(p6) =~= d + list_text(p5) + ", algorithm=MD5"@);
}

spec fn protection_parts(nc: Seq<char>, cnonce: Seq<char>) -> Seq<Part> {
    seq![bare("qop"@, "auth"@), bare("nc"@, nc), q("cnonce"@, cnonce)]
}

/// Adding the parts of quality of protection.
proof fn protection_list(ps: Seq<Part>, text: Seq<char>, nc: Seq<char>, cnonce: Seq<char>)
    requires
        all_ok(ps),
        ps.len() > 0,
        text == "Digest "@ + list_text(ps),
        bare_value(nc),
        unquoted(cnonce),
    ensures
        all_ok(ps + protection_parts(nc, cnonce)),
        text + ", qop=auth, nc="@ + nc + ", "@ + auth::quoted("cnonce"@, cnonce) == "Digest "@ + list_text(
            ps + protection_parts(nc, cnonce),
        ),
{
    names_are_bare();
    bare_part("qop"@, "auth"@);
    bare_part("nc"@, nc);
    quoted_part("cnonce"@, cnonce);
    let p1 = ps.push(bare("qop"@, "auth"@));
    let p2 = p1.push(bare("nc"@, nc));
    let p3 = p2.push(q("cnonce"@, cnonce));
    assert(p3 =~= ps + protection_parts(nc, cnonce));
    assert(all_ok(p3)) by {
        assert forall|i: int| 0 <= i < p3.len() implies #[trigger] part_ok(
            p3[i].text,
            p3[i].key,
            p3[i].value,
        ) by {
            if i < ps.len() {
                assert(part_ok(ps[i].text, ps[i].key, ps[i].value));
            }
        }
    }
    list_text_push(ps, bare("qop"@, "auth"@));
    list_text_push(p1, bare("nc"@, nc));
    list_text_push(p2, q("cnonce"@, cnonce));
    reveal_strlit(", qop=auth, nc=");
    reveal_strlit(", ");
    reveal_strlit("qop");
    reveal_strlit("nc");
    reveal_strlit("=");
    reveal_strlit("auth");
    let d = "Digest "@;
    assert(", qop=auth, nc="@ =~= ", "@ + ("qop"@ + "="@ + "auth"@) + ", "@ + ("nc"@ + "="@));
    assert(d + list_text(p2) =~= text + ", qop=auth, nc="@ + nc);
    assert(d + list_text(p3) =~= d + list_text(p2) + ", "@ + auth::quoted("cnonce"@, cnonce));
}

proof fn opaque_list(ps: Seq<Part>, text: Seq<char>, opaque_value: Seq<char>)
    requires
        all_ok(ps),
        ps.len() > 0,
        text == "Digest "@ + list_text(ps),
        unquoted(opaque_value),
    ensures
        all_ok(ps.push(q("opaque"@, opaque_value))),
        text + ", "@ + auth::quoted("opaque"@, opaque_value) == "Digest "@ + list_text(
            ps.push(q("opaque"@, opaque_value)),
        ),
{
    names_are_bare();
    quoted_part("opaque"@, opaque_value);
    let p1 = ps.push(q("opaque"@, opaque_value));
    assert(all_ok(p1)) by {
        assert forall|i: int| 0 <= i < p1.len() implies #[trigger] part_ok(
            p1[i].text,
            p1[i].key,
            p1[i].value,
        ) by {
            if i < ps.len() {
                assert(part_ok(ps[i].text, ps[i].key, ps[i].value));
            }
        }
    }
    list_text_push(ps, q("opaque"@, opaque_value));
    assert("Digest "@ + list_text(p1) =~= text + ", "@ + auth::quoted("opaque"@, opaque_value));
}

/// The list of an answer ends in a character that is not white space.
proof fn list_ends_well(ps: Seq<Part>)
    requires
        all_ok(ps),
        ps.len() > 0,
        ps.last().text.len() > 0,
        !text::is_space(ps.last().text.last()),
    ensures
        list_text(ps).len() > 0,
        !text::is_space(list_text(ps).last()),
{
    if ps.len() > 1 {
        let t = list_text(ps);
        assert(t.last() == ps.last().text.last());
    }
}

/// Parts with distinct names read back as a map with those names.
proof fn read_entry(ps: Seq<Part>, i: int)
    requires
        table::keys_distinct(entries(ps)),
        0 <= i < ps.len(),
    ensures
        table::map_of(entries(ps)).dom().contains(ps[i].key),
        table::map_of(entries(ps))[ps[i].key] == ps[i].value,
{
    table::map_of_entries(entries(ps));
    assert(entries(ps)[i] == (ps[i].key, ps[i].value));
}

proof fn signs_differ(ps: Seq<Part>)
    requires
        forall|i: int, j: int|
            0 <= i < j < ps.len() ==> sign((#[trigger] ps[i]).key) != sign((#[trigger] ps[j]).key),
    ensures
        table::keys_distinct(entries(ps)),
{
    let e = entries(ps);
    assert forall|i: int, j: int| 0 <= i < j < e.len() implies (#[trigger] e[i]).0 != (
    #[trigger] e[j]).0 by {
        assert(sign(ps[i].key) != sign(ps[j].key));
    }
}

proof fn auth_contains_auth()
    ensures
        scan::contains_text("auth"@, "auth"@),
{
    reveal_strlit("auth");
    let a = "auth"@;
    assert(a.subrange(0, 4) =~= a);
    assert(scan::stands_at(a, a, 0));
}

spec fn answer_parts(
    challenge: Map<Seq<char>, Seq<char>>,
    username: Seq<char>,
    uri: Seq<char>,
    response: Seq<char>,
    nc: Seq<char>,
    cnonce: Seq<char>,
) -> Seq<Part> {
    let base = base_parts(
        username,
        auth::param_or_empty(challenge, "realm"@),
        auth::param_or_empty(challenge, "nonce"@),
        uri,
        response,
    );
    let protected = if auth::wants_auth(challenge) {
        base + protection_parts(nc, cnonce)
    } else {
        base
    };
    if challenge.dom().contains("opaque"@) {
        protected.push(q("opaque"@, challenge["opaque"@]))
    } else {
        protected
    }
}

proof fn answer_parts_distinct(
    challenge: Map<Seq<char>, Seq<char>>,
    username: Seq<char>,
    uri: Seq<char>,
    response: Seq<char>,
    nc: Seq<char>,
    cnonce: Seq<char>,
)
    ensures
        table::keys_distinct(entries(answer_parts(challenge, username, uri, response, nc, cnonce))),
{
    names_differ();
    signs_differ(answer_parts(challenge, username, uri, response, nc, cnonce));
}

/// A quoted part ends in a quote.
proof fn quoted_ends(key: Seq<char>, value: Seq<char>)
    ensures
        auth::quoted(key, value).len() > 0,
        auth::quoted(key, value).last() == '"',
{
    reveal_strlit("\"");
    let p = auth::quoted(key, value);
    assert(p[p.len() - 1] == '"');
}

/// The parts of an answer, computed with a password.
spec fn full_answer(
    challenge: Map<Seq<char>, Seq<char>>,
    username: Seq<char>,
    password: Seq<char>,
    method: Seq<char>,
    uri: Seq<char>,
    cnonce: Seq<char>,
    nc: u32,
) -> Seq<Part> {
    let realm = auth::param_or_empty(challenge, "realm"@);
    let nonce = auth::param_or_empty(challenge, "nonce"@);
    let response = digest::digest_response(
        username,
        realm,
        password,
        method,
        uri,
        nonce,
        auth::counted_of(digest::param(challenge, "qop"@), Some(auth::nc_text(nc)), Some(cnonce)),
    );
    answer_parts(challenge, username, uri, response, auth::nc_text(nc), cnonce)
}

/// An answer is a list of its parts.
proof fn answer_is_list(
    challenge: Map<Seq<char>, Seq<char>>,
    username: Seq<char>,
    password: Seq<char>,
    method: Seq<char>,
    uri: Seq<char>,
    cnonce: Seq<char>,
    nc: u32,
)
    requires
        unquoted(username),
        unquoted(uri),
        unquoted(cnonce),
        unquoted(auth::param_or_empty(challenge, "realm"@)),
        unquoted(auth::param_or_empty(challenge, "nonce"@)),
        unquoted(auth::param_or_empty(challenge, "opaque"@)),
    ensures
        all_ok(full_answer(challenge, username, password, method, uri, cnonce, nc)),
        auth::authorization_text(challenge, username, password, method, uri, cnonce, nc)
            == "Digest "@ + list_text(
            full_answer(challenge, username, password, method, uri, cnonce, nc),
        ),
        list_text(full_answer(challenge, username, password, method, uri, cnonce, nc)).len() > 0,
        !text::is_space(
            list_text(full_answer(challenge, username, password, method, uri, cnonce, nc)).last(),
        ),
{
    let realm = auth::param_or_empty(challenge, "realm"@);
    let nonce = auth::param_or_empty(challenge, "nonce"@);
    let counted = auth::counted_of(digest::param(challenge, "qop"@), Some(auth::nc_text(nc)), Some(cnonce));
    let response = digest::digest_response(username, realm, password, method, uri, nonce, counted);
    let ha1 = digest::md5_text(digest::colon(digest::colon(username, realm), password));
    let ha2 = digest::md5_text(digest::colon(method, uri));
    hex_is_bare(
        digest::md5_sum(vstd::utf8::encode_utf8(crate::digest::response_input(ha1, ha2, nonce, counted))),
    );
    hex_is_bare(crate::bytes::be_bytes(nc as nat, 4));
    crate::bytes::be_of_bytes(crate::bytes::be_bytes(nc as nat, 4));
    assert(crate::bytes::be_bytes(nc as nat, 4).len() == 4) by {
        reveal_with_fuel(crate::bytes::be_bytes, 5);
    }
    assert(unquoted(response));
    assert(bare_value(auth::nc_text(nc)));
    let base = base_parts(username, realm, nonce, uri, response);
    base_list(username, realm, nonce, uri, response);
    let text0 = base_text(username, realm, nonce, uri, response);
    reveal_strlit("algorithm");
    reveal_strlit("MD5");
    reveal_strlit("=");
    let p0 = base.last().text;
    assert(p0.last() == '5');
    let (ps1, text1) = if auth::wants_auth(challenge) {
        (
            base + protection_parts(auth::nc_text(nc), cnonce),
            text0 + ", qop=auth, nc="@ + auth::nc_text(nc) + ", "@ + auth::quoted("cnonce"@, cnonce),
        )
    } else {
        (base, text0)
    };
    if auth::wants_auth(challenge) {
        protection_list(base, text0, auth::nc_text(nc), cnonce);
        quoted_ends("cnonce"@, cnonce);
        assert(ps1.last().text == auth::quoted("cnonce"@, cnonce));
    }
    let ps = answer_parts(challenge, username, uri, response, auth::nc_text(nc), cnonce);
    if challenge.dom().contains("opaque"@) {
        opaque_list(ps1, text1, challenge["opaque"@]);
        quoted_ends("opaque"@, challenge["opaque"@]);
    }
    list_ends_well(ps);
}

/// What the parameters of an answer are.
proof fn answer_reads_back(
    challenge: Map<Seq<char>, Seq<char>>,
    username: Seq<char>,
    password: Seq<char>,
    method: Seq<char>,
    uri: Seq<char>,
    cnonce: Seq<char>,
    nc: u32,
)
    requires
        unquoted(username),
        unquoted(uri),
        unquoted(cnonce),
        unquoted(auth::param_or_empty(challenge, "realm"@)),
        unquoted(auth::param_or_empty(challenge, "nonce"@)),
        unquoted(auth::param_or_empty(challenge, "opaque"@)),
    ensures
        ({
            let realm = auth::param_or_empty(challenge, "realm"@);
            let nonce = auth::param_or_empty(challenge, "nonce"@);
            let response = digest::digest_response(
                username,
                realm,
                password,
                method,
                uri,
                nonce,
                auth::counted_of(digest::param(challenge, "qop"@), Some(auth::nc_text(nc)), Some(cnonce)),
            );
            auth::auth_params(
                auth::authorization_text(challenge, username, password, method, uri, cnonce, nc),
            ) == table::map_of(
                entries(
                    answer_parts(challenge, username, uri, response, auth::nc_text(nc), cnonce),
                ),
            )
        }),
{
    answer_is_list(challenge, username, password, method, uri, cnonce, nc);
    digest_list(full_answer(challenge, username, password, method, uri, cnonce, nc));
}

/// An answer to a challenge, computed with the right password, proves knowledge
/// of that password for the method and the nonce of the challenge. The texts
/// that are put in quotes hold no quotes of their own.
pub proof fn answer_is_authorized(
    challenge: Map<Seq<char>, Seq<char>>,
    username: Seq<char>,
    password: Seq<char>,
    method: Seq<char>,
    uri: Seq<char>,
    cnonce: Seq<char>,
    nc: u32,
)
    requires
        unquoted(username),
        unquoted(uri),
        unquoted(cnonce),
        unquoted(auth::param_or_empty(challenge, "realm"@)),
        unquoted(auth::param_or_empty(challenge, "nonce"@)),
        unquoted(auth::param_or_empty(challenge, "opaque"@)),
    ensures
        auth::authorized(
            auth::authorization_text(challenge, username, password, method, uri, cnonce, nc),
            password,
            method,
            auth::param_or_empty(challenge, "nonce"@),
        ),
{
    let realm = auth::param_or_empty(challenge, "realm"@);
    let nonce = auth::param_or_empty(challenge, "nonce"@);
    let counted = auth::counted_of(digest::param(challenge, "qop"@), Some(auth::nc_text(nc)), Some(cnonce));
    let response = digest::digest_response(username, realm, password, method, uri, nonce, counted);
    let ps = answer_parts(challenge, username, uri, response, auth::nc_text(nc), cnonce);
    answer_reads_back(challenge, username, password, method, uri, cnonce, nc);
    answer_parts_distinct(challenge, username, uri, response, auth::nc_text(nc), cnonce);
    let p = table::map_of(entries(ps));
    read_entry(ps, 0);
    read_entry(ps, 1);
    read_entry(ps, 2);
    read_entry(ps, 3);
    read_entry(ps, 4);
    if auth::wants_auth(challenge) {
        read_entry(ps, 6);
        read_entry(ps, 7);
        read_entry(ps, 8);
        auth_contains_auth();
    } else {
        names_differ();
        table::map_of_entries(entries(ps));
        assert(!p.dom().contains("qop"@)) by {
            if p.dom().contains("qop"@) {
                let i = choose|i: int|
                    0 <= i < entries(ps).len() && (#[trigger] entries(ps)[i]).0 == "qop"@;
                assert(entries(ps)[i].0 == ps[i].key);
                assert(sign(ps[i].key) == sign("qop"@));
            }
        }
    }
}

/// A challenge reads back as its realm, its nonce, the wish for quality of protection, the
/// opaque text and the algorithm, and as nothing else.
pub proof fn challenge_reads_back(realm: Seq<char>, nonce: Seq<char>)
    requires
        unquoted(realm),
        unquoted(nonce),
    ensures
        ({
            let p = auth::auth_params(auth::challenge_text(realm, nonce));
            &&& digest::param(p, "realm"@) == Some(realm)
            &&& digest::param(p, "nonce"@) == Some(nonce)
            &&& digest::param(p, "qop"@) == Some("auth"@)
            &&& digest::param(p, "opaque"@) == Some(digest::md5_text(digest::colon(realm, "sip"@)))
            &&& digest::param(p, "algorithm"@) == Some("MD5"@)
            &&& p.dom() == set!["realm"@, "nonce"@, "qop"@, "opaque"@, "algorithm"@]
        }),
{
    names_are_bare();
    names_differ();
    let opaque_value = digest::md5_text(digest::colon(realm, "sip"@));
    hex_is_bare(digest::md5_sum(vstd::utf8::encode_utf8(digest::colon(realm, "sip"@))));
    assert(unquoted(opaque_value));
    quoted_part("realm"@, realm);
    quoted_part("nonce"@, nonce);
    quoted_part("qop"@, "auth"@);
    quoted_part("opaque"@, opaque_value);
    bare_part("algorithm"@, "MD5"@);
    let p1 = seq![q("realm"@, realm)];
    let p2 = p1.push(q("nonce"@, nonce));
    let p3 = p2.push(q("qop"@, "auth"@));
    let p4 = p3.push(q("opaque"@, opaque_value));
    let ps = p4.push(bare("algorithm"@, "MD5"@));
    list_text_push(p1, q("nonce"@, nonce));
    list_text_push(p2, q("qop"@, "auth"@));
    list_text_push(p3, q("opaque"@, opaque_value));
    list_text_push(p4, bare("algorithm"@, "MD5"@));
    let d = "Digest "@;
    assert(d + list_text(p2) =~= d + auth::quoted("realm"@, realm) + ", "@ + auth::quoted("nonce"@, nonce));
    assert(d + list_text(p3) =~= d + list_text(p2) + ", "@ + auth::quoted("qop"@, "auth"@));
    assert(d + list_text(p4) =~= d + list_text(p3) + ", "@ + auth::quoted("opaque"@, opaque_value));
    reveal_strlit(", algorithm=MD5");
    reveal_strlit(", ");
    reveal_strlit("algorithm");
    reveal_strlit("=");
    reveal_strlit("MD5");
    assert(", algorithm=MD5"@ =~= ", "@ + ("algorithm"@ + "="@ + "MD5"@));
    assert(d + list_text(ps) =~= d + list_text(p4) + ", algorithm=MD5"@);
    assert(auth::challenge_text(realm, nonce) =~= d + list_text(ps));
    assert(all_ok(ps));
    assert(ps.last().text.last() == '5');
    list_ends_well(ps);
    digest_list(ps);
    signs_differ(ps);
    read_entry(ps, 0);
    read_entry(ps, 1);
    read_entry(ps, 2);
    read_entry(ps, 3);
    read_entry(ps, 4);
    let p = auth::auth_params(auth::challenge_text(realm, nonce));
    let es = entries(ps);
    table::map_of_entries(es);
    assert forall|k: Seq<char>| p.dom().contains(k) <==> set![
        "realm"@,
        "nonce"@,
        "qop"@,
        "opaque"@,
        "algorithm"@,
    ].contains(k) by {
        if p.dom().contains(k) {
            let i = choose|i: int| 0 <= i < es.len() && (#[trigger] es[i]).0 == k;
            assert(es[i].0 == ps[i].key);
        }
    }
}

/// The full loop: an answer to a challenge of this server, computed with the
/// right password, is accepted.
pub proof fn challenge_answer_is_accepted(
    realm: Seq<char>,
    nonce: Seq<char>,
    username: Seq<char>,
    password: Seq<char>,
    method: Seq<char>,
    uri: Seq<char>,
    cnonce: Seq<char>,
    nc: u32,
)
    requires
        unquoted(realm),
        unquoted(nonce),
        unquoted(username),
        unquoted(uri),
        unquoted(cnonce),
    ensures
        auth::authorized(
            auth::authorization_text(
                auth::auth_params(auth::challenge_text(realm, nonce)),
                username,
                password,
                method,
                uri,
                cnonce,
                nc,
            ),
            password,
            method,
            nonce,
        ),
{
    challenge_reads_back(realm, nonce);
    hex_is_bare(digest::md5_sum(vstd::utf8::encode_utf8(digest::colon(realm, "sip"@))));
    assert(unquoted(digest::md5_text(digest::colon(realm, "sip"@))));
    answer_is_authorized(
        auth::auth_params(auth::challenge_text(realm, nonce)),
        username,
        password,
        method,
        uri,
        cnonce,
        nc,
    );
}

/// An answer to another nonce is not accepted.
pub proof fn other_nonces_are_refused(
    header: Seq<char>,
    password: Seq<char>,
    method: Seq<char>,
    nonce: Seq<char>,
)
    requires
        digest::param(auth::auth_params(header), "nonce"@) != Some(nonce),
    ensures
        !auth::authorized(header, password, method, nonce),
{
}

/// A text without commas.
pub open spec fn uncut(s: Seq<char>) -> bool {
    forall|i: int| 0 <= i < s.len() ==> #[trigger] s[i] != ','
}

proof fn pieces_append(s: Seq<char>, t: Seq<char>)
    requires
        uncut(t),
    ensures
        scan::pieces(s + ","@ + t, ',') == scan::pieces(s, ',').push(t),
    decreases s.len(),
{
    reveal_strlit(",");
    let all = s + ","@ + t;
    text::find_char_is_first(s, ',', 0);
    text::find_char_is_first(all, ',', 0);
    text::find_char_is_first(t, ',', 0);
    let k = text::find_char(s, ',', 0);
    assert(all[s.len() as int] == ',');
    if k >= s.len() {
        find_first(all, ',', s.len() as int);
        assert(all.subrange(0, s.len() as int) =~= s);
        assert(scan::rest(all, s.len() as int + 1) =~= t);
        assert(text::find_char(t, ',', 0) >= t.len()) by {
            let j = text::find_char(t, ',', 0);
            if j < t.len() {
                assert(t[j] == ',');
            }
        }
        assert(scan::pieces(t, ',') == seq![t]);
        assert(seq![s] + seq![t] =~= seq![s].push(t));
    } else {
        find_first(all, ',', k);
        assert(all.subrange(0, k) =~= s.subrange(0, k));
        let r = scan::rest(s, k + 1);
        assert(scan::rest(all, k + 1) =~= r + ","@ + t);
        pieces_append(r, t);
        assert(seq![s.subrange(0, k)] + scan::pieces(r, ',').push(t) =~= (seq![s.subrange(0, k)]
            + scan::pieces(r, ',')).push(t));
    }
}

spec fn parts_uncut(ps: Seq<Part>) -> bool {
    forall|i: int|
        0 <= i < ps.len() ==> uncut((#[trigger] ps[i]).text) && ps[i].text.len() > 0
            && !text::is_space(ps[i].text[0]) && !text::is_space(ps[i].text.last())
}

proof fn list_pieces(ps: Seq<Part>)
    requires
        parts_uncut(ps),
        ps.len() > 0,
    ensures
        scan::pieces(list_text(ps), ',') == spaced(ps),
    decreases ps.len(),
{
    reveal_strlit(", ");
    reveal_strlit(",");
    reveal_strlit(" ");
    if ps.len() == 1 {
        let t = ps[0].text;
        assert(uncut(t));
        text::find_char_is_first(t, ',', 0);
        let j = text::find_char(t, ',', 0);
        if j < t.len() {
            assert(t[j] == ',');
        }
        assert(scan::pieces(t, ',') =~= spaced(ps));
    } else {
        let init = ps.drop_last();
        let last = ps.last();
        assert(ps[ps.len() - 1] == last);
        assert forall|i: int| 0 <= i < init.len() implies uncut((#[trigger] init[i]).text)
            && init[i].text.len() > 0 && !text::is_space(init[i].text[0]) && !text::is_space(
            init[i].text.last(),
        ) by {
            assert(init[i] == ps[i]);
        }
        list_pieces(init);
        let t = " "@ + last.text;
        assert forall|i: int| 0 <= i < t.len() implies #[trigger] t[i] != ',' by {
            if i > 0 {
                assert(t[i] == last.text[i - 1]);
            }
        }
        pieces_append(list_text(init), t);
        assert(list_text(ps) =~= list_text(init) + ","@ + t);
        assert(spaced(init).push(t) =~= spaced(ps));
    }
}

proof fn texts_params(ps: Seq<Part>)
    requires
        all_ok(ps),
    ensures
        digest::params_of(Seq::new(ps.len(), |i: int| ps[i].text)) == table::map_of(entries(ps)),
    decreases ps.len(),
{
    let ts = Seq::new(ps.len(), |i: int| ps[i].text);
    if ps.len() > 0 {
        let init = ps.drop_last();
        let last = ps.last();
        assert(all_ok(init)) by {
            assert forall|i: int| 0 <= i < init.len() implies #[trigger] part_ok(
                init[i].text,
                init[i].key,
                init[i].value,
            ) by {
                assert(init[i] == ps[i]);
                assert(part_ok(ps[i].text, ps[i].key, ps[i].value));
            }
        }
        texts_params(init);
        let n = ps.len() - 1;
        assert(part_ok(ps[n].text, ps[n].key, ps[n].value));
        assert(ts.drop_last() =~= Seq::new(init.len(), |i: int| init[i].text));
        assert(ts.last() == last.text);
        assert(entries(ps).drop_last() =~= entries(init));
        assert(entries(ps).last() == (last.key, last.value));
    } else {
        assert(entries(ps) =~= Seq::<(Seq<char>, Seq<char>)>::empty());
    }
}

/// The Brew listener reads a list as its parameters.
proof fn brew_reads_list(ps: Seq<Part>)
    requires
        all_ok(ps),
        parts_uncut(ps),
        ps.len() > 0,
        list_text(ps).len() > 0,
        !text::is_space(list_text(ps).last()),
    ensures
        server::digest_params("Digest "@ + list_text(ps)) == table::map_of(entries(ps)),
        text::starts_with("Digest "@ + list_text(ps), "Digest "@),
{
    reveal_strlit("Digest ");
    reveal_strlit(" ");
    let t = "Digest "@ + list_text(ps);
    assert(t[0] == 'D');
    assert(t.last() == list_text(ps).last());
    trim_same(t);
    assert(t.subrange(0, 7) =~= "Digest "@);
    assert(scan::rest(t, 7) =~= list_text(ps));
    list_pieces(ps);
    let ts = Seq::new(ps.len(), |i: int| ps[i].text);
    assert(server::trimmed_parts(list_text(ps)) =~= ts) by {
        assert forall|i: int| 0 <= i < ps.len() implies text::trim(#[trigger] spaced(ps)[i])
            == ps[i].text by {
            assert(ps[i].text.len() > 0);
            if i == 0 {
                trim_same(ps[i].text);
            } else {
                trim_after_blank(ps[i].text);
            }
        }
    }
    texts_params(ps);
}

proof fn quoted_uncut(key: Seq<char>, value: Seq<char>)
    requires
        bare_word(key),
        uncut(value),
    ensures
        uncut(auth::quoted(key, value)),
        auth::quoted(key, value).len() > 0,
        !text::is_space(auth::quoted(key, value)[0]),
        !text::is_space(auth::quoted(key, value).last()),
{
    reveal_strlit("=\"");
    reveal_strlit("\"");
    quoted_ends(key, value);
    let p = auth::quoted(key, value);
    let n = key.len() as int;
    assert(p[0] == key[0]);
    assert forall|i: int| 0 <= i < p.len() implies #[trigger] p[i] != ',' by {
        if i < n {
            assert(p[i] == key[i]);
        } else if n + 2 <= i < n + 2 + value.len() {
            assert(p[i] == value[i - n - 2]);
        }
    }
}

proof fn bare_uncut(key: Seq<char>, value: Seq<char>)
    requires
        bare_word(key),
        bare_value(value),
    ensures
        uncut(key + "="@ + value),
        (key + "="@ + value).len() > 0,
        !text::is_space((key + "="@ + value)[0]),
        !text::is_space((key + "="@ + value).last()),
{
    reveal_strlit("=");
    let p = key + "="@ + value;
    let n = key.len() as int;
    assert(p[0] == key[0]);
    assert(p.last() == value[value.len() - 1]);
    assert forall|i: int| 0 <= i < p.len() implies #[trigger] p[i] != ',' by {
        if i < n {
            assert(p[i] == key[i]);
        } else if i > n {
            assert(p[i] == value[i - n - 1]);
        }
    }
}

/// A challenge of the Brew listener reads back as its realm, its nonce, the wish for
/// quality of protection and the opaque text, and as nothing else.
pub proof fn brew_challenge_reads_back(realm: Seq<char>, nonce: Seq<char>)
    requires
        unquoted(realm),
        unquoted(nonce),
    ensures
        ({
            let p = auth::auth_params(server::brew_challenge_text(realm, nonce));
            &&& digest::param(p, "realm"@) == Some(realm)
            &&& digest::param(p, "nonce"@) == Some(nonce)
            &&& digest::param(p, "qop"@) == Some("auth"@)
            &&& digest::param(p, "opaque"@) == Some(digest::md5_text(digest::colon(realm, "brew"@)))
            &&& p.dom() == set!["realm"@, "nonce"@, "qop"@, "opaque"@]
        }),
{
    names_are_bare();
    names_differ();
    let opaque_value = digest::md5_text(digest::colon(realm, "brew"@));
    hex_is_bare(digest::md5_sum(vstd::utf8::encode_utf8(digest::colon(realm, "brew"@))));
    assert(unquoted(opaque_value));
    quoted_part("realm"@, realm);
    quoted_part("nonce"@, nonce);
    quoted_part("qop"@, "auth"@);
    quoted_part("opaque"@, opaque_value);
    let p1 = seq![q("realm"@, realm)];
    let p2 = p1.push(q("nonce"@, nonce));
    let p3 = p2.push(q("qop"@, "auth"@));
    let ps = p3.push(q("opaque"@, opaque_value));
    list_text_push(p1, q("nonce"@, nonce));
    list_text_push(p2, q("qop"@, "auth"@));
    list_text_push(p3, q("opaque"@, opaque_value));
    let d = "Digest "@;
    assert(d + list_text(p2) =~= d + auth::quoted("realm"@, realm) + ", "@ + auth::quoted(
        "nonce"@,
        nonce,
    ));
    assert(d + list_text(p3) =~= d + list_text(p2) + ", "@ + auth::quoted("qop"@, "auth"@));
    assert(d + list_text(ps) =~= d + list_text(p3) + ", "@ + auth::quoted("opaque"@, opaque_value));
    assert(server::brew_challenge_text(realm, nonce) =~= d + list_text(ps));
    assert(all_ok(ps));
    quoted_ends("opaque"@, opaque_value);
    list_ends_well(ps);
    digest_list(ps);
    signs_differ(ps);
    read_entry(ps, 0);
    read_entry(ps, 1);
    read_entry(ps, 2);
    read_entry(ps, 3);
    let p = auth::auth_params(server::brew_challenge_text(realm, nonce));
    let es = entries(ps);
    table::map_of_entries(es);
    assert forall|k: Seq<char>| p.dom().contains(k) <==> set![
        "realm"@,
        "nonce"@,
        "qop"@,
        "opaque"@,
    ].contains(k) by {
        if p.dom().contains(k) {
            let i = choose|i: int| 0 <= i < es.len() && (#[trigger] es[i]).0 == k;
            assert(es[i].0 == ps[i].key);
        }
    }
}

/// A client that answers a challenge of the Brew listener with the configured password
/// of its user proves that user, for the method and the path that it asked for. A peer
/// server logs in this way. No text that is put in quotes holds a quote or a comma.
pub proof fn brew_answer_proves_the_user(
    realm: Seq<char>,
    nonce: Seq<char>,
    users: Map<Seq<char>, Seq<char>>,
    nonces: Map<Seq<char>, u64>,
    username: Seq<char>,
    method: Seq<char>,
    uri: Seq<char>,
    cnonce: Seq<char>,
    nc: u32,
)
    requires
        unquoted(realm),
        uncut(realm),
        unquoted(nonce),
        uncut(nonce),
        unquoted(uri),
        uncut(uri),
        unquoted(cnonce),
        uncut(cnonce),
        server::valid_username(username),
        users.dom().contains(username),
        nonces.dom().contains(nonce),
    ensures
        server::digest_user(
            Some(
                auth::authorization_text(
                    auth::auth_params(server::brew_challenge_text(realm, nonce)),
                    username,
                    users[username],
                    method,
                    uri,
                    cnonce,
                    nc,
                ),
            ),
            users,
            nonces,
            realm,
            method,
            uri,
        ) == Some(username),
{
    names_are_bare();
    let challenge = auth::auth_params(server::brew_challenge_text(realm, nonce));
    brew_challenge_reads_back(realm, nonce);
    let opaque_value = digest::md5_text(digest::colon(realm, "brew"@));
    hex_is_bare(digest::md5_sum(vstd::utf8::encode_utf8(digest::colon(realm, "brew"@))));
    assert forall|i: int| 0 <= i < username.len() implies #[trigger] username[i] != '"'
        && username[i] != ',' by {
        assert(text::is_digit(username[i]));
    }
    auth_contains_auth();
    let password = users[username];
    let counted = auth::counted_of(
        digest::param(challenge, "qop"@),
        Some(auth::nc_text(nc)),
        Some(cnonce),
    );
    let response = digest::digest_response(username, realm, password, method, uri, nonce, counted);
    let ha1 = digest::md5_text(digest::colon(digest::colon(username, realm), password));
    let ha2 = digest::md5_text(digest::colon(method, uri));
    hex_is_bare(
        digest::md5_sum(
            vstd::utf8::encode_utf8(digest::response_input(ha1, ha2, nonce, counted)),
        ),
    );
    hex_is_bare(crate::bytes::be_bytes(nc as nat, 4));
    assert(crate::bytes::be_bytes(nc as nat, 4).len() == 4) by {
        reveal_with_fuel(crate::bytes::be_bytes, 5);
    }
    answer_is_list(challenge, username, password, method, uri, cnonce, nc);
    let ps = full_answer(challenge, username, password, method, uri, cnonce, nc);
    quoted_uncut("username"@, username);
    quoted_uncut("realm"@, realm);
    quoted_uncut("nonce"@, nonce);
    quoted_uncut("uri"@, uri);
    quoted_uncut("response"@, response);
    bare_uncut("algorithm"@, "MD5"@);
    bare_uncut("qop"@, "auth"@);
    bare_uncut("nc"@, auth::nc_text(nc));
    quoted_uncut("cnonce"@, cnonce);
    quoted_uncut("opaque"@, opaque_value);
    assert(parts_uncut(ps));
    brew_reads_list(ps);
    answer_parts_distinct(challenge, username, uri, response, auth::nc_text(nc), cnonce);
    read_entry(ps, 0);
    read_entry(ps, 1);
    read_entry(ps, 2);
    read_entry(ps, 3);
    read_entry(ps, 4);
    read_entry(ps, 6);
    read_entry(ps, 7);
    read_entry(ps, 8);
}

} // verus!

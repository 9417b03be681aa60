//! What holds of SIP messages: headers are found by name, and what is built is read
//! back.
use crate::scan;
use crate::sip::message;
use crate::sip::message::{CommaState, HeaderModel, MethodModel, SipModel, StartModel};
use crate::text;
use crate::text_laws;
use vstd::prelude::*;

verus! {

/// The case of a header's name does not matter.
pub proof fn header_names_ignore_case(m: SipModel, a: Seq<char>, b: Seq<char>)
    requires
        text::lower_text(a) == text::lower_text(b),
    ensures
        m.header(a) == m.header(b),
{
}

/// A header line that was added is the last of its name, and the values before it keep
/// their order; no other header changes.
pub proof fn added_headers_come_last(m: SipModel, name: Seq<char>, value: Seq<char>, other: Seq<char>)
    ensures
        message::values_of(m.with_header(name, value).headers, text::lower_text(name))
            == message::values_of(m.headers, text::lower_text(name)).push(value),
        m.header(name) is Some ==> m.with_header(name, value).header(name) == m.header(name),
        m.header(name) is None ==> m.with_header(name, value).header(name) == Some(value),
        text::lower_text(other) != text::lower_text(name) ==> m.with_header(name, value).header(
            other,
        ) == m.header(other),
{
    let h = m.with_header(name, value).headers;
    assert(h.drop_last() =~= m.headers);
}

proof fn values_without(headers: Seq<HeaderModel>, name: Seq<char>, other: Seq<char>)
    ensures
        message::values_of(message::headers_except(headers, name), name) == Seq::<
            Seq<char>,
        >::empty(),
        other != name ==> message::values_of(message::headers_except(headers, name), other)
            == message::values_of(headers, other),
    decreases headers.len(),
{
    reveal(Seq::filter);
    if headers.len() > 0 {
        let init = headers.drop_last();
        values_without(init, name, other);
        let kept = message::headers_except(headers, name);
        if headers.last().name != name {
            assert(kept.drop_last() =~= message::headers_except(init, name));
        }
    }
}

/// A header that was set has one value, and no other header changes.
pub proof fn set_headers_are_single(m: SipModel, name: Seq<char>, value: Seq<char>, other: Seq<char>)
    ensures
        message::values_of(m.with_single_header(name, value).headers, text::lower_text(name))
            == seq![value],
        m.with_single_header(name, value).header(name) == Some(value),
        text::lower_text(other) != text::lower_text(name) ==> message::values_of(
            m.with_single_header(name, value).headers,
            text::lower_text(other),
        ) == message::values_of(m.headers, text::lower_text(other)),
{
    let key = text::lower_text(name);
    let h = m.with_single_header(name, value).headers;
    values_without(m.headers, key, text::lower_text(other));
    assert(h.drop_last() =~= message::headers_except(m.headers, key));
    assert(message::values_of(h, key) =~= seq![value]);
}

/// A text that fits on a line.
pub open spec fn on_a_line(s: Seq<char>) -> bool {
    forall|i: int| 0 <= i < s.len() ==> #[trigger] s[i] != '\r' && s[i] != '\n'
}

/// A text without white space, and not empty.
pub open spec fn is_word(s: Seq<char>) -> bool {
    s.len() > 0 && forall|i: int| 0 <= i < s.len() ==> !text::is_space(#[trigger] s[i])
}

/// Whether a header is in the form in which messages are built: a lower-case name in
/// full, and a value on one line without white space around it. A header that may list
/// values has one.
pub open spec fn plain_header(h: HeaderModel) -> bool {
    &&& is_word(h.name)
    &&& forall|i: int| 0 <= i < h.name.len() ==> #[trigger] h.name[i] != ':'
    &&& text::lower_text(h.name) == h.name
    &&& message::expanded_name(h.name) == h.name
    &&& on_a_line(h.value)
    &&& text::trim(h.value) == h.value
    &&& message::is_listed(h.name) ==> message::comma_pieces(h.value) == seq![h.value]
}

/// Whether a start line is in the form in which messages are built.
pub open spec fn plain_start(s: StartModel) -> bool {
    match s {
        StartModel::Request { method, uri } => {
            &&& is_word(method.name())
            &&& MethodModel::named(method.name()) == method
            &&& method.name() != "SIP/2.0"@
            &&& is_word(uri)
        },
        StartModel::Status { code, reason } => on_a_line(reason) && text::trim_end(reason)
            == reason,
    }
}

/// Whether a message can be read back: its start line and the headers that are written as
/// they are stand in the form in which messages are built.
pub open spec fn plain_message(m: SipModel) -> bool {
    let headers = message::written_headers(m.headers);
    &&& plain_start(m.start)
    &&& forall|i: int| 0 <= i < headers.len() ==> plain_header(#[trigger] headers[i])
}

/// The header that gives the length of a body.
pub open spec fn length_header(m: SipModel) -> HeaderModel {
    HeaderModel { name: "content-length"@, value: text::decimal(m.body.len()) }
}

/// The headers of a message on the wire: the length of the body comes last.
pub open spec fn sent_headers(m: SipModel) -> Seq<HeaderModel> {
    message::written_headers(m.headers).push(length_header(m))
}

/// Lines put together, a line break between each two.
spec fn block(ls: Seq<Seq<char>>) -> Seq<char>
    decreases ls.len(),
{
    if ls.len() == 0 {
        seq![]
    } else if ls.len() == 1 {
        ls[0]
    } else {
        ls[0] + "\r\n"@ + block(ls.drop_first())
    }
}

spec fn good_lines(ls: Seq<Seq<char>>) -> bool {
    forall|i: int| 0 <= i < ls.len() ==> (#[trigger] ls[i]).len() > 0 && on_a_line(ls[i])
}

proof fn block_push(ls: Seq<Seq<char>>, l: Seq<char>)
    requires
        ls.len() > 0,
    ensures
        block(ls.push(l)) == block(ls) + "\r\n"@ + l,
    decreases ls.len(),
{
    let more = ls.push(l);
    if ls.len() == 1 {
        assert(more.drop_first() =~= seq![l]);
        assert(block(seq![l]) == l);
        assert(block(more) =~= block(ls) + "\r\n"@ + l);
    } else {
        block_push(ls.drop_first(), l);
        assert(more.drop_first() =~= ls.drop_first().push(l));
        assert(block(more) =~= block(ls) + "\r\n"@ + l);
    }
}

/// The lines of a block are read back.
proof fn block_lines(ls: Seq<Seq<char>>)
    requires
        good_lines(ls),
        ls.len() > 0,
    ensures
        scan::lines(block(ls)) == ls,
    decreases ls.len(),
{
    reveal_strlit("\r\n");
    let s = block(ls);
    let l = ls[0];
    assert(on_a_line(l));
    text::find_char_is_first(s, '\n', 0);
    let k = text::find_char(s, '\n', 0);
    if ls.len() == 1 {
        assert(k >= s.len()) by {
            if k < s.len() {
                assert(l[k] == '\n');
            }
        }
        assert(seq![s] =~= ls);
    } else {
        let tail = ls.drop_first();
        assert forall|i: int| 0 <= i < tail.len() implies (#[trigger] tail[i]).len() > 0
            && on_a_line(tail[i]) by {
            assert(tail[i] == ls[i + 1]);
        }
        block_lines(tail);
        assert(s[l.len() as int] == '\r');
        assert(s[l.len() as int + 1] == '\n');
        assert(k == l.len() + 1) by {
            if k < l.len() + 1 {
                assert(s[k] == '\n');
                if k < l.len() {
                    assert(s[k] == l[k]);
                }
            }
        }
        assert(s.subrange(0, k).drop_last() =~= l);
        assert(scan::rest(s, k + 1) =~= block(tail));
        assert(seq![l] + tail =~= ls);
    }
}

proof fn encode_joined(a: Seq<char>, b: Seq<char>)
    ensures
        vstd::utf8::encode_utf8(a + b) == vstd::utf8::encode_utf8(a) + vstd::utf8::encode_utf8(b),
    decreases a.len(),
{
    if a.len() == 0 {
        assert(a + b =~= b);
        assert(vstd::utf8::encode_utf8(a) + vstd::utf8::encode_utf8(b) =~= vstd::utf8::encode_utf8(
            b,
        ));
    } else {
        encode_joined(a.drop_first(), b);
        assert((a + b).drop_first() =~= a.drop_first() + b);
        assert(vstd::utf8::encode_utf8(a + b) =~= vstd::utf8::encode_utf8(a)
            + vstd::utf8::encode_utf8(b));
    }
}

/// The bytes of a character: itself in ASCII, and bytes outside of ASCII otherwise.
proof fn character_bytes(c: char)
    ensures
        ({
            let e = vstd::utf8::encode_scalar(c as u32);
            &&& e.len() > 0
            &&& (c as u32) < 0x80 ==> e == seq![(c as u32) as u8]
            &&& (c as u32) >= 0x80 ==> forall|i: int|
                0 <= i < e.len() ==> #[trigger] e[i] >= 0x80
            &&& c != '\r' && c != '\n' ==> forall|i: int|
                0 <= i < e.len() ==> #[trigger] e[i] != 13 && e[i] != 10
        }),
{
    let u = c as u32;
    vstd::utf8::char_is_scalar(c);
    assert(u < 0x80 ==> (u & 0x7F) as u8 == u as u8) by (bit_vector);
    assert((0xC0u8 | ((u >> 6) & 0x1F) as u8) >= 0x80 && (0xE0u8 | ((u >> 12) & 0x0F) as u8) >= 0x80
        && (0xF0u8 | ((u >> 18) & 0x7) as u8) >= 0x80 && (0x80u8 | (u & 0x3F) as u8) >= 0x80 && (
    0x80u8 | ((u >> 6) & 0x3F) as u8) >= 0x80 && (0x80u8 | ((u >> 12) & 0x3F) as u8) >= 0x80)
        by (bit_vector);
}

/// The bytes of a text that fits on a line hold no line break.
proof fn line_bytes(l: Seq<char>)
    requires
        on_a_line(l),
    ensures
        forall|i: int|
            0 <= i < vstd::utf8::encode_utf8(l).len() ==> #[trigger] vstd::utf8::encode_utf8(l)[i]
                != 13 && vstd::utf8::encode_utf8(l)[i] != 10,
        l.len() > 0 ==> vstd::utf8::encode_utf8(l).len() > 0,
    decreases l.len(),
{
    if l.len() > 0 {
        let e = vstd::utf8::encode_utf8(l);
        let a = vstd::utf8::encode_scalar(l[0] as u32);
        let b = vstd::utf8::encode_utf8(l.drop_first());
        character_bytes(l[0]);
        assert forall|i: int| 0 <= i < l.drop_first().len() implies #[trigger] l.drop_first()[i]
            != '\r' && l.drop_first()[i] != '\n' by {
            assert(l.drop_first()[i] == l[i + 1]);
        }
        line_bytes(l.drop_first());
        assert(l[0] != '\r' && l[0] != '\n');
        assert forall|i: int| 0 <= i < e.len() implies #[trigger] e[i] != 13 && e[i] != 10 by {
            if i < a.len() {
                assert(e[i] == a[i]);
            } else {
                assert(e[i] == b[i - a.len()]);
            }
        }
    }
}

proof fn break_bytes()
    ensures
        vstd::utf8::encode_utf8("\r\n"@) == seq![13u8, 10u8],
        vstd::utf8::encode_utf8("\r\n\r\n"@) == seq![13u8, 10u8, 13u8, 10u8],
{
    reveal_strlit("\r\n");
    reveal_strlit("\r\n\r\n");
    let b = "\r\n"@;
    character_bytes('\r');
    character_bytes('\n');
    reveal_with_fuel(vstd::utf8::encode_utf8, 3);
    assert(b.drop_first().drop_first() =~= Seq::<char>::empty());
    assert(vstd::utf8::encode_utf8(b) =~= seq![13u8, 10u8]);
    encode_joined(b, b);
    assert(b + b =~= "\r\n\r\n"@);
    assert(seq![13u8, 10u8] + seq![13u8, 10u8] =~= seq![13u8, 10u8, 13u8, 10u8]);
}

/// The bytes of a block.
spec fn wire(ls: Seq<Seq<char>>) -> Seq<u8> {
    vstd::utf8::encode_utf8(block(ls))
}

/// The bytes of a block are those of its first line, a line break and those of the rest.
proof fn wire_of_more(ls: Seq<Seq<char>>)
    requires
        ls.len() > 1,
    ensures
        wire(ls) == vstd::utf8::encode_utf8(ls[0]) + seq![13u8, 10u8] + wire(ls.drop_first()),
{
    break_bytes();
    encode_joined(ls[0], "\r\n"@);
    encode_joined(ls[0] + "\r\n"@, block(ls.drop_first()));
}

proof fn wire_starts(ls: Seq<Seq<char>>)
    requires
        good_lines(ls),
        ls.len() > 0,
    ensures
        wire(ls).len() > 0,
        wire(ls)[0] != 13,
        wire(ls)[0] != 10,
{
    assert(ls[0].len() > 0 && on_a_line(ls[0]));
    line_bytes(ls[0]);
    let e = vstd::utf8::encode_utf8(ls[0]);
    assert(e[0] != 13 && e[0] != 10);
    if ls.len() > 1 {
        wire_of_more(ls);
    }
}

spec fn blank_at(s: Seq<u8>, i: int) -> bool {
    0 <= i && i + 4 <= s.len() && s[i] == 13 && s[i + 1] == 10 && s[i + 2] == 13 && s[i + 3] == 10
}

proof fn blank_is_text(s: Seq<u8>, i: int)
    ensures
        scan::stands_at(s, seq![13u8, 10u8, 13u8, 10u8], i) == blank_at(s, i),
{
    let p = seq![13u8, 10u8, 13u8, 10u8];
    if 0 <= i && i + 4 <= s.len() {
        let t = s.subrange(i, i + 4);
        if blank_at(s, i) {
            assert(t =~= p);
        }
        if t == p {
            assert(t[0] == s[i] && t[1] == s[i + 1] && t[2] == s[i + 2] && t[3] == s[i + 3]);
        }
    }
}

/// No blank line stands inside a block.
proof fn wire_has_no_blank(ls: Seq<Seq<char>>, tail: Seq<u8>, i: int)
    requires
        good_lines(ls),
        ls.len() > 0,
        0 <= i < wire(ls).len(),
        tail.len() >= 4,
    ensures
        !blank_at(wire(ls) + tail, i),
    decreases ls.len(),
{
    let s = wire(ls) + tail;
    let l = vstd::utf8::encode_utf8(ls[0]);
    assert(on_a_line(ls[0]));
    line_bytes(ls[0]);
    if ls.len() > 1 {
        wire_of_more(ls);
    }
    if i < l.len() {
        assert(s[i] == l[i]);
    } else {
        let rest = ls.drop_first();
        assert forall|j: int| 0 <= j < rest.len() implies (#[trigger] rest[j]).len() > 0
            && on_a_line(rest[j]) by {
            assert(rest[j] == ls[j + 1]);
        }
        wire_starts(rest);
        if i == l.len() {
            assert(s[i + 2] == wire(rest)[0]);
        } else if i == l.len() + 1 {
            assert(s[i] == 10);
        } else {
            let j = i - l.len() - 2;
            wire_has_no_blank(rest, tail, j);
            let t = wire(rest) + tail;
            assert(s =~= l + seq![13u8, 10u8] + t);
            assert(forall|d: int| 0 <= d < 4 && i + d < s.len() ==> s[i + d] == #[trigger] t[j + d]);
            if blank_at(s, i) {
                assert(t[j + 0] == 13 && t[j + 1] == 10 && t[j + 2] == 13 && t[j + 3] == 10);
            }
        }
    }
}

/// The head of a message is what stands before the first blank line.
proof fn head_is_found(ls: Seq<Seq<char>>, body: Seq<u8>)
    requires
        good_lines(ls),
        ls.len() > 0,
    ensures
        message::head_body(wire(ls) + seq![13u8, 10u8, 13u8, 10u8] + body) == (wire(ls), body),
{
    let p = seq![13u8, 10u8, 13u8, 10u8];
    let b = wire(ls);
    let tail = p + body;
    let t = b + p + body;
    assert(t =~= b + tail);
    let n = b.len() as int;
    assert(blank_at(t, n));
    blank_is_text(t, n);
    scan::find_text_is_first(t, p, 0);
    match scan::find_text(t, p, 0) {
        Some(k) => {
            if k < n {
                wire_has_no_blank(ls, tail, k);
                blank_is_text(t, k);
            }
            assert(k <= n) by {
                if k > n {
                    assert(!scan::stands_at(t, p, n));
                }
            }
            assert(t.subrange(0, n) =~= b);
            assert(t.subrange(n + 4, t.len() as int) =~= body);
        },
        None => {
            assert(!scan::stands_at(t, p, n));
        },
    }
}

proof fn trim_end_same(s: Seq<char>)
    requires
        s.len() == 0 || !text::is_space(s.last()),
    ensures
        text::trim_end(s) == s,
{
}

proof fn trim_word(s: Seq<char>)
    requires
        is_word(s),
    ensures
        text::trim(s) == s,
{
    assert(!text::is_space(s[0]));
    assert(!text::is_space(s[s.len() - 1]));
}

proof fn trim_behind_blank(s: Seq<char>)
    ensures
        text::trim(" "@ + s) == text::trim(s),
{
    reveal_strlit(" ");
    let t = " "@ + s;
    assert(t[0] == ' ');
    assert(t.drop_first() =~= s);
}

/// A header line on the wire.
spec fn header_line(h: HeaderModel) -> Seq<char> {
    message::display_name(h.name) + ": "@ + h.value
}

proof fn display_facts(n: Seq<char>)
    requires
        is_word(n),
        forall|i: int| 0 <= i < n.len() ==> #[trigger] n[i] != ':',
        text::lower_text(n) == n,
    ensures
        message::display_name(n).len() == n.len(),
        text::lower_text(message::display_name(n)) == n,
        is_word(message::display_name(n)),
        forall|i: int|
            0 <= i < n.len() ==> #[trigger] message::display_name(n)[i] != ':'
                && message::display_name(n)[i] != '\r' && message::display_name(n)[i] != '\n',
{
    reveal_strlit("call-id");
    reveal_strlit("Call-ID");
    reveal_strlit("cseq");
    reveal_strlit("CSeq");
    reveal_strlit("www-authenticate");
    reveal_strlit("WWW-Authenticate");
    let d = message::display_name(n);
    if n == "call-id"@ {
        assert(text::lower_text(d) =~= n);
    } else if n == "cseq"@ {
        assert(text::lower_text(d) =~= n);
    } else if n == "www-authenticate"@ {
        assert(text::lower_text(d) =~= n);
    } else {
        assert forall|i: int| 0 <= i < n.len() implies text::lower(#[trigger] d[i]) == n[i]
            && !text::is_space(d[i]) && d[i] != ':' by {
            assert(text::lower_text(n)[i] == n[i]);
            assert(!text::is_space(n[i]));
            assert(n[i] != ':');
        }
        assert(text::lower_text(d) =~= n);
    }
    assert forall|i: int| 0 <= i < n.len() implies !text::is_space(#[trigger] d[i]) by {}
    assert forall|i: int| 0 <= i < n.len() implies #[trigger] d[i] != ':' && d[i] != '\r' && d[i]
        != '\n' by {
        assert(!text::is_space(d[i]));
        assert(text::is_space('\r') && text::is_space('\n'));
    }
}

/// Reading a header line completes the line before it and starts this one.
proof fn header_line_is_read(f: message::FoldState, h: HeaderModel)
    requires
        plain_header(h),
    ensures
        message::fold_line(f, header_line(h)) == (message::FoldState {
            headers: message::flushed(f),
            current: Some((message::display_name(h.name), h.value)),
        }),
        message::folded_headers(message::display_name(h.name), h.value) == seq![h],
        header_line(h).len() > 0,
        on_a_line(header_line(h)),
{
    reveal_strlit(": ");
    reveal_strlit(" ");
    let n = h.name;
    let d = message::display_name(n);
    display_facts(n);
    let line = header_line(h);
    let k = n.len() as int;
    assert forall|i: int| 0 <= i < line.len() implies #[trigger] line[i] != '\r' && line[i]
        != '\n' by {
        if i < k {
            assert(line[i] == d[i]);
        } else if i >= k + 2 {
            assert(line[i] == h.value[i - k - 2]);
        }
    }
    assert(line[0] == d[0]);
    assert(!text::is_space(d[0]));
    assert(text::is_space(' ') && text::is_space('\t'));
    text::find_char_is_first(line, ':', 0);
    assert(line[k] == ':');
    assert(text::find_char(line, ':', 0) == k) by {
        let f = text::find_char(line, ':', 0);
        if f < k {
            assert(line[f] == d[f]);
        }
    }
    assert(line.subrange(0, k) =~= d);
    trim_word(d);
    assert(scan::rest(line, k + 1) =~= " "@ + h.value);
    trim_behind_blank(h.value);
    if message::is_listed(n) {
        assert(message::folded_headers(d, h.value) =~= seq![h]);
    } else {
        assert(message::folded_headers(d, h.value) =~= seq![h]);
    }
}

spec fn header_lines(headers: Seq<HeaderModel>) -> Seq<Seq<char>> {
    headers.map_values(|h: HeaderModel| header_line(h))
}

/// The header lines are read back.
proof fn header_lines_are_read(headers: Seq<HeaderModel>)
    requires
        forall|i: int| 0 <= i < headers.len() ==> plain_header(#[trigger] headers[i]),
    ensures
        message::flushed(message::fold_lines(header_lines(headers))) == headers,
        good_lines(header_lines(headers)),
    decreases headers.len(),
{
    let ls = header_lines(headers);
    if headers.len() == 0 {
        assert(message::flushed(message::fold_lines(ls)) =~= headers);
    } else {
        let init = headers.drop_last();
        let last = headers.last();
        assert(plain_header(headers[headers.len() - 1]));
        assert forall|i: int| 0 <= i < init.len() implies plain_header(#[trigger] init[i]) by {
            assert(init[i] == headers[i]);
        }
        header_lines_are_read(init);
        assert(ls.drop_last() =~= header_lines(init));
        assert(ls.last() == header_line(last));
        header_line_is_read(message::fold_lines(header_lines(init)), last);
        assert(init + seq![last] =~= headers);
        assert forall|i: int| 0 <= i < ls.len() implies (#[trigger] ls[i]).len() > 0 && on_a_line(
            ls[i],
        ) by {
            if i < init.len() {
                assert(ls[i] == header_lines(init)[i]);
            }
        }
    }
}

proof fn header_text_is_lines(headers: Seq<HeaderModel>, first: Seq<char>)
    ensures
        first + "\r\n"@ + message::headers_text(headers) == block(
            seq![first] + header_lines(headers),
        ) + "\r\n"@,
    decreases headers.len(),
{
    let ls = seq![first] + header_lines(headers);
    if headers.len() == 0 {
        assert(ls =~= seq![first]);
        assert(block(seq![first]) == first);
        assert(first + "\r\n"@ + message::headers_text(headers) =~= first + "\r\n"@);
    } else {
        let init = headers.drop_last();
        let last = headers.last();
        header_text_is_lines(init, first);
        let before = seq![first] + header_lines(init);
        assert(ls =~= before.push(header_line(last)));
        block_push(before, header_line(last));
        assert(first + "\r\n"@ + message::headers_text(headers) =~= (first + "\r\n"@
            + message::headers_text(init)) + (header_line(last) + "\r\n"@));
        assert(block(ls) + "\r\n"@ =~= (block(before) + "\r\n"@) + (header_line(last) + "\r\n"@));
    }
}

/// A start line on the wire, without its line break.
spec fn start_line(s: StartModel) -> Seq<char> {
    match s {
        StartModel::Request { method, uri } => method.name() + " "@ + uri + " SIP/2.0"@,
        StartModel::Status { code, reason } => "SIP/2.0 "@ + text::decimal(code as nat) + " "@
            + reason,
    }
}

proof fn find_space_at(s: Seq<char>, a: int, b: int)
    requires
        0 <= a <= b <= s.len(),
        forall|i: int| a <= i < b ==> !text::is_space(#[trigger] s[i]),
        b == s.len() || text::is_space(s[b]),
    ensures
        scan::find_space(s, a) == b,
    decreases b - a,
{
    if a < b {
        assert(!text::is_space(s[a]));
        find_space_at(s, a + 1, b);
    }
}

/// The three words of a request line.
proof fn three_words(a: Seq<char>, b: Seq<char>, c: Seq<char>)
    requires
        is_word(a),
        is_word(b),
        is_word(c),
    ensures
        scan::words(a + " "@ + b + " "@ + c) == seq![a, b, c],
{
    reveal_strlit(" ");
    let s = a + " "@ + b + " "@ + c;
    let i = a.len() as int;
    let j = i + 1 + b.len();
    assert(text::is_space(' '));
    assert(s[i] == ' ' && s[j] == ' ');
    assert forall|k: int| 0 <= k < i implies !text::is_space(#[trigger] s[k]) by {
        assert(s[k] == a[k]);
    }
    assert forall|k: int| i + 1 <= k < j implies !text::is_space(#[trigger] s[k]) by {
        assert(s[k] == b[k - i - 1]);
    }
    assert forall|k: int| j + 1 <= k < s.len() implies !text::is_space(#[trigger] s[k]) by {
        assert(s[k] == c[k - j - 1]);
    }
    find_space_at(s, 0, i);
    find_space_at(s, i + 1, j);
    find_space_at(s, j + 1, s.len() as int);
    assert(!text::is_space(s[0]) && !text::is_space(s[i + 1]) && !text::is_space(s[j + 1]));
    reveal_with_fuel(scan::skip_space, 3);
    assert(scan::skip_space(s, 0) == 0);
    assert(scan::skip_space(s, i) == i + 1);
    assert(scan::skip_space(s, j) == j + 1);
    assert(scan::skip_space(s, s.len() as int) == s.len());
    assert(s.subrange(0, i) =~= a);
    assert(s.subrange(i + 1, j) =~= b);
    assert(s.subrange(j + 1, s.len() as int) =~= c);
    assert(scan::words_from(s, s.len() as int) == Seq::<Seq<char>>::empty());
    assert(scan::words_from(s, j) =~= seq![c]);
    assert(scan::words_from(s, i) =~= seq![b, c]);
    assert(scan::words_from(s, 0) =~= seq![a, b, c]);
}

proof fn digits_are_words(n: nat)
    ensures
        is_word(text::decimal(n)),
        forall|i: int| 0 <= i < text::decimal(n).len() ==> text::is_digit(#[trigger] text::decimal(n)[i]),
{
    text::decimal_round_trip(n);
    let d = text::decimal(n);
    assert forall|i: int| 0 <= i < d.len() implies !text::is_space(#[trigger] d[i]) by {
        assert(text::is_digit(d[i]));
    }
}

/// The start line is read back.
proof fn start_is_read(s: StartModel)
    requires
        plain_start(s),
    ensures
        message::start_model(text::trim_end(start_line(s))) == Some(s),
        start_line(s).len() > 0,
        on_a_line(start_line(s)),
{
    reveal_strlit("SIP/2.0 ");
    reveal_strlit(" SIP/2.0");
    reveal_strlit("SIP/2.0");
    reveal_strlit("SIP/");
    reveal_strlit(" ");
    let line = start_line(s);
    assert(text::is_space('\r') && text::is_space('\n') && text::is_space(' '));
    match s {
        StartModel::Request { method, uri } => {
            let a = method.name();
            let c = "SIP/2.0"@;
            assert forall|i: int| 0 <= i < c.len() implies !text::is_space(#[trigger] c[i]) by {}
            assert(line =~= a + " "@ + uri + " "@ + c);
            three_words(a, uri, c);
            assert forall|i: int| 0 <= i < line.len() implies #[trigger] line[i] != '\r' && line[i]
                != '\n' by {
                if i < a.len() {
                    assert(line[i] == a[i]);
                    assert(!text::is_space(a[i]));
                } else if a.len() < i < a.len() + 1 + uri.len() {
                    assert(line[i] == uri[i - a.len() - 1]);
                    assert(!text::is_space(uri[i - a.len() - 1]));
                }
            }
            assert(line.last() == '0');
            trim_end_same(line);
            assert(!text::starts_with(line, "SIP/2.0 "@)) by {
                if text::starts_with(line, "SIP/2.0 "@) {
                    let p = "SIP/2.0 "@;
                    assert(line.subrange(0, 8) == p);
                    assert forall|i: int| 0 <= i < 8 implies #[trigger] line[i] == p[i] by {
                        assert(line.subrange(0, 8)[i] == line[i]);
                    }
                    if a.len() > 7 {
                        assert(a[7] == line[7]);
                        assert(!text::is_space(a[7]));
                    } else if a.len() < 7 {
                        assert(line[a.len() as int] == ' ');
                        assert(p[a.len() as int] != ' ');
                    } else {
                        assert forall|i: int| 0 <= i < 7 implies a[i] == "SIP/2.0"@[i] by {
                            assert(a[i] == line[i]);
                        }
                        assert(a =~= "SIP/2.0"@);
                    }
                }
            }
            assert(c.subrange(0, 4) =~= "SIP/"@);
        },
        StartModel::Status { code, reason } => {
            let d = text::decimal(code as nat);
            digits_are_words(code as nat);
            text::decimal_round_trip(code as nat);
            assert forall|i: int| 0 <= i < line.len() implies #[trigger] line[i] != '\r' && line[i]
                != '\n' by {
                if 8 <= i < 8 + d.len() {
                    assert(line[i] == d[i - 8]);
                    assert(!text::is_space(d[i - 8]));
                } else if i > 8 + d.len() {
                    assert(line[i] == reason[i - 9 - d.len()]);
                }
            }
            let t = text::trim_end(line);
            if reason.len() == 0 {
                let short = "SIP/2.0 "@ + d;
                assert(line =~= short.push(' '));
                assert(line.drop_last() =~= short);
                assert(short.last() == d[d.len() - 1]);
                trim_end_same(short);
                assert(t == short);
                let tail = scan::rest(t, 8);
                assert(tail =~= d);
                text::find_char_is_first(tail, ' ', 0);
                let k = text::find_char(tail, ' ', 0);
                assert(k >= tail.len()) by {
                    if k < tail.len() {
                        assert(!text::is_space(d[k]));
                    }
                }
                assert(tail.subrange(0, k) =~= d);
                assert(t.subrange(0, 8) =~= "SIP/2.0 "@);
                assert(reason =~= Seq::<char>::empty());
            } else {
                assert(!text::is_space(reason.last())) by {
                    if text::is_space(reason.last()) {
                        trim_end_shrinks(reason.drop_last());
                    }
                }
                assert(line.last() == reason.last());
                trim_end_same(line);
                let tail = scan::rest(line, 8);
                assert(tail =~= d + " "@ + reason);
                text::find_char_is_first(tail, ' ', 0);
                let k = text::find_char(tail, ' ', 0);
                assert(tail[d.len() as int] == ' ');
                assert(k == d.len()) by {
                    if k < d.len() {
                        assert(tail[k] == d[k]);
                        assert(!text::is_space(d[k]));
                    }
                }
                assert(tail.subrange(0, k) =~= d);
                assert(scan::rest(tail, k + 1) =~= reason);
                assert(line.subrange(0, 8) =~= "SIP/2.0 "@);
            }
        },
    }
}

proof fn trim_end_shrinks(s: Seq<char>)
    ensures
        text::trim_end(s).len() <= s.len(),
    decreases s.len(),
{
    if s.len() > 0 && text::is_space(s.last()) {
        trim_end_shrinks(s.drop_last());
    }
}

proof fn length_is_plain(m: SipModel)
    ensures
        plain_header(length_header(m)),
{
    reveal_strlit("content-length");
    reveal_strlit("v");
    reveal_strlit("f");
    reveal_strlit("t");
    reveal_strlit("i");
    reveal_strlit("m");
    reveal_strlit("c");
    reveal_strlit("l");
    reveal_strlit("s");
    reveal_strlit("k");
    reveal_strlit("via");
    reveal_strlit("route");
    reveal_strlit("record-route");
    let h = length_header(m);
    let n = h.name;
    assert(text::lower_text(n) =~= n);
    assert("record-route"@[0] == 'r');
    assert(n[0] == 'c');
    digits_are_words(m.body.len());
    trim_word(h.value);
    assert forall|i: int| 0 <= i < h.value.len() implies #[trigger] h.value[i] != '\r' && h.value[i]
        != '\n' by {
        assert(text::is_digit(h.value[i]));
    }
}

proof fn lengths_are_read(m: SipModel)
    requires
        m.body.len() <= usize::MAX,
    ensures
        message::clipped(m.body, sent_headers(m)) == m.body,
{
    let name = "content-length"@;
    let all = sent_headers(m);
    assert(all.drop_last() =~= message::written_headers(m.headers));
    values_without(m.headers, name, name);
    let d = text::decimal(m.body.len());
    assert(message::values_of(all, name) =~= seq![d]);
    digits_are_words(m.body.len());
    trim_word(d);
    text::decimal_round_trip(m.body.len());
}

proof fn length_text(m: SipModel)
    ensures
        message::headers_text(sent_headers(m)) == message::headers_text(
            message::written_headers(m.headers),
        ) + "Content-Length: "@ + text::decimal(m.body.len()) + "\r\n"@,
{
    reveal_strlit("content-length");
    reveal_strlit("Content-Length: ");
    reveal_strlit(": ");
    reveal_strlit("call-id");
    reveal_strlit("cseq");
    reveal_strlit("www-authenticate");
    let all = sent_headers(m);
    let kept = message::written_headers(m.headers);
    assert(all.drop_last() =~= kept);
    let n = "content-length"@;
    assert(n != "call-id"@ && n != "cseq"@ && n != "www-authenticate"@) by {
        assert(n.len() == 14);
    }
    assert(message::display_name(n) + ": "@ =~= "Content-Length: "@);
    assert(message::headers_text(all) =~= message::headers_text(kept) + (message::display_name(n)
        + ": "@) + text::decimal(m.body.len()) + "\r\n"@);
}

/// What is sent is received: the head of a plain message on the wire is valid UTF-8, its
/// body is what was sent, whatever its bytes, and the two read as the message, with the
/// length of its body.
pub proof fn sent_messages_are_received(m: SipModel)
    requires
        plain_message(m),
        m.body.len() <= usize::MAX,
    ensures
        ({
            let (head, body) = message::head_body(message::sip_bytes(m));
            &&& vstd::utf8::valid_utf8(head)
            &&& body == m.body
            &&& message::sip_model(vstd::utf8::decode_utf8(head), body) == Some(
                SipModel { headers: sent_headers(m), ..m },
            )
        }),
{
    reveal_strlit("\r\n");
    reveal_strlit("\r\n\r\n");
    reveal_strlit(" SIP/2.0\r\n");
    reveal_strlit(" SIP/2.0");
    let all = sent_headers(m);
    let first = start_line(m.start);
    start_is_read(m.start);
    length_is_plain(m);
    assert forall|i: int| 0 <= i < all.len() implies plain_header(#[trigger] all[i]) by {
        if i < message::written_headers(m.headers).len() {
            assert(all[i] == message::written_headers(m.headers)[i]);
        }
    }
    header_lines_are_read(all);
    let ls = seq![first] + header_lines(all);
    assert(good_lines(ls)) by {
        assert forall|i: int| 0 <= i < ls.len() implies (#[trigger] ls[i]).len() > 0 && on_a_line(
            ls[i],
        ) by {
            if i > 0 {
                assert(ls[i] == header_lines(all)[i - 1]);
            }
        }
    }
    assert(message::start_text(m.start) =~= first + "\r\n"@);
    header_text_is_lines(all, first);
    length_text(m);
    assert("\r\n"@ + "\r\n"@ =~= "\r\n\r\n"@);
    assert(message::head_text(m) =~= first + "\r\n"@ + message::headers_text(all) + "\r\n"@);
    assert(message::head_text(m) =~= block(ls) + "\r\n\r\n"@);
    encode_joined(block(ls), "\r\n\r\n"@);
    break_bytes();
    assert(message::sip_bytes(m) =~= wire(ls) + seq![13u8, 10u8, 13u8, 10u8] + m.body);
    head_is_found(ls, m.body);
    vstd::utf8::encode_utf8_valid_utf8(block(ls));
    vstd::utf8::encode_utf8_decode_utf8(block(ls));
    block_lines(ls);
    assert(ls.drop_first() =~= header_lines(all));
    lengths_are_read(m);
}

/// The URI of an address is what stands in its angle brackets, whatever is around them;
/// without brackets it is what stands before the parameters.
pub proof fn addresses_give_their_uri(a: Seq<char>, uri: Seq<char>, b: Seq<char>)
    requires
        !a.contains('<') && !a.contains('>'),
        !uri.contains('<') && !uri.contains('>') && !uri.contains(';'),
        !b.contains('<') && !b.contains('>'),
    ensures
        message::address_uri(a + seq!['<'] + uri + seq!['>'] + b) == uri,
        message::address_uri(uri + seq![';'] + b) == text::trim(uri),
        message::address_uri(uri) == text::trim(uri),
{
    let h = a + seq!['<'] + uri + seq!['>'] + b;
    let open = a.len() as int;
    let close = open + 1 + uri.len();
    assert(h[open] == '<' && h[close] == '>');
    assert forall|i: int| 0 <= i < open implies h[i] != '<' && h[i] != '>' by {
        assert(h[i] == a[i]);
    }
    assert forall|i: int| open < i < close implies h[i] != '>' by {
        assert(h[i] == uri[i - open - 1]);
    }
    found_at(h, '<', open);
    found_at(h, '>', close);
    assert(h.subrange(open + 1, close) =~= uri);
    let p = uri + seq![';'] + b;
    assert forall|i: int| 0 <= i < p.len() implies p[i] != '<' && p[i] != '>' by {
        if i < uri.len() {
            assert(p[i] == uri[i]);
        } else if i > uri.len() {
            assert(p[i] == b[i - uri.len() - 1]);
        }
    }
    found_at(p, '<', p.len() as int);
    assert(p[uri.len() as int] == ';');
    assert forall|i: int| 0 <= i < uri.len() implies p[i] != ';' by {
        assert(p[i] == uri[i]);
    }
    found_at(p, ';', uri.len() as int);
    assert(p.subrange(0, uri.len() as int) =~= uri);
    found_at(uri, '<', uri.len() as int);
    found_at(uri, ';', uri.len() as int);
    assert(uri.subrange(0, uri.len() as int) =~= uri);
}

/// A character stands first where it stands and not before.
proof fn found_at(s: Seq<char>, c: char, k: int)
    requires
        0 <= k <= s.len(),
        forall|i: int| 0 <= i < k ==> s[i] != c,
        k < s.len() ==> s[k] == c,
    ensures
        text::find_char(s, c, 0) == k,
{
    text::find_char_is_first(s, c, 0);
    let f = text::find_char(s, c, 0);
    if f < k {
        assert(s[f] != c);
    }
}

proof fn scheme_goes(s: Seq<char>)
    requires
        !text::starts_with(s, "sip:"@),
        !text::starts_with(s, "sips:"@),
    ensures
        message::without_scheme("sip:"@ + s) == s,
        message::without_scheme("sips:"@ + s) == s,
        message::without_scheme(s) == s,
{
    reveal_strlit("sip:");
    reveal_strlit("sips:");
    let one = "sip:"@ + s;
    assert(one.subrange(0, 4) =~= "sip:"@);
    assert(scan::rest(one, 4) =~= s);
    assert(scan::strip_all(one, "sip:"@) == s) by {
        reveal_with_fuel(scan::strip_all, 2);
    }
    let two = "sips:"@ + s;
    assert(two[3] == 's');
    assert(!text::starts_with(two, "sip:"@)) by {
        if text::starts_with(two, "sip:"@) {
            assert(two.subrange(0, 4)[3] == "sip:"@[3]);
        }
    }
    assert(two.subrange(0, 5) =~= "sips:"@);
    assert(scan::rest(two, 5) =~= s);
    assert(scan::strip_all(two, "sips:"@) == s) by {
        reveal_with_fuel(scan::strip_all, 2);
    }
}

/// The user of a URI is what stands between the scheme and the at sign, and its host what
/// stands behind it, up to the parameters and headers. Without an at sign there is no
/// user, and the host follows the scheme.
pub proof fn uris_name_user_and_host(user: Seq<char>, host: Seq<char>, mark: char, more: Seq<char>)
    requires
        !user.contains('@'),
        !host.contains('@') && !host.contains(';') && !host.contains('?'),
        host.len() > 0,
        mark == ';' || mark == '?',
        !more.contains('@'),
        !text::starts_with(user + seq!['@'] + host + seq![mark] + more, "sip:"@),
        !text::starts_with(user + seq!['@'] + host + seq![mark] + more, "sips:"@),
        !text::starts_with(host + seq![mark] + more, "sip:"@),
        !text::starts_with(host + seq![mark] + more, "sips:"@),
    ensures
        message::user_part("sip:"@ + (user + seq!['@'] + host + seq![mark] + more)) == Some(user),
        message::user_part("sips:"@ + (user + seq!['@'] + host + seq![mark] + more)) == Some(user),
        message::host_part("sip:"@ + (user + seq!['@'] + host + seq![mark] + more)) == Some(host),
        message::user_part("sip:"@ + (host + seq![mark] + more)) is None,
        message::host_part("sip:"@ + (host + seq![mark] + more)) == Some(host),
{
    let s = user + seq!['@'] + host + seq![mark] + more;
    let n = user.len() as int;
    scheme_goes(s);
    assert(s[n] == '@');
    assert forall|i: int| 0 <= i < n implies s[i] != '@' by {
        assert(s[i] == user[i]);
    }
    found_at(s, '@', n);
    assert(s.subrange(0, n) =~= user);
    let h = host + seq![mark] + more;
    assert(scan::rest(s, n + 1) =~= h);
    host_ends(host, mark, more);
    scheme_goes(h);
    assert forall|i: int| 0 <= i < h.len() implies h[i] != '@' by {
        if i < host.len() {
            assert(h[i] == host[i]);
        } else if i > host.len() {
            assert(h[i] == more[i - host.len() - 1]);
        }
    }
    found_at(h, '@', h.len() as int);
}

proof fn host_ends(host: Seq<char>, mark: char, more: Seq<char>)
    requires
        !host.contains(';') && !host.contains('?'),
        mark == ';' || mark == '?',
    ensures
        ({
            let h = host + seq![mark] + more;
            &&& message::sooner(text::find_char(h, ';', 0), text::find_char(h, '?', 0))
                == host.len()
            &&& h.subrange(0, host.len() as int) == host
        }),
{
    let h = host + seq![mark] + more;
    let n = host.len() as int;
    assert(h[n] == mark);
    assert forall|i: int| 0 <= i < n implies h[i] != ';' && h[i] != '?' by {
        assert(h[i] == host[i]);
    }
    found_at(h, mark, n);
    text::find_char_is_first(h, ';', 0);
    text::find_char_is_first(h, '?', 0);
    let a = text::find_char(h, ';', 0);
    let b = text::find_char(h, '?', 0);
    if a < n {
        assert(h[a] != ';');
    }
    if b < n {
        assert(h[b] != '?');
    }
    assert(h.subrange(0, n) =~= host);
}

/// A body is cut to the length that the message gives for it, and left as it is where
/// none is given or more is announced than there is.
pub proof fn bodies_have_the_length_given(m: SipModel, body: Seq<u8>, n: nat)
    requires
        n <= u32::MAX,
        m.header("Content-Length"@) == Some(text::decimal(n)),
        message::values_of(m.headers, "content-length"@).len() > 0,
    ensures
        n <= body.len() ==> message::clipped(body, m.headers) == body.subrange(0, n as int),
        n > body.len() ==> message::clipped(body, m.headers) == body,
{
    reveal_strlit("Content-Length");
    reveal_strlit("content-length");
    assert(text::lower_text("Content-Length"@) =~= "content-length"@);
    let d = text::decimal(n);
    text::decimal_round_trip(n);
    assert(text::is_digit(d[0]));
    assert(text::is_digit(d.last()));
    assert(text::trim(d) == d);
    if n == body.len() {
        assert(body.subrange(0, n as int) =~= body);
    }
}

/// A CSeq header gives its number and its method.
pub proof fn sequence_numbers_are_read(m: SipModel, n: u32, method: Seq<char>)
    requires
        is_word(method),
        m.header("CSeq"@) == Some(text::decimal(n as nat) + seq![' '] + method),
    ensures
        m.cseq() == Some((n, method)),
{
    reveal_strlit("CSeq");
    reveal_strlit("cseq");
    assert(text::lower_text("CSeq"@) =~= "cseq"@);
    assert(text::lower_text("cseq"@) =~= "cseq"@);
    let d = text::decimal(n as nat);
    text::decimal_round_trip(n as nat);
    assert forall|i: int| 0 <= i < d.len() implies !text::is_space(#[trigger] d[i]) by {
        assert(text::is_digit(d[i]));
        digits_are_no_space(d[i]);
    }
    let none = Seq::<char>::empty();
    text_laws::words_are_parted_by_space(none, d, ' ', method);
    text_laws::words_are_parted_by_space(none, method, ' ', none);
    assert(none + d + seq![' '] + method =~= d + seq![' '] + method);
    assert(none + method =~= method);
    let w = scan::words(d + seq![' '] + method);
    assert(w =~= seq![d, method]);
}

proof fn digits_are_no_space(c: char)
    requires
        text::is_digit(c),
    ensures
        !text::is_space(c),
{
}

/// A parameter of a header is found behind its semicolon, and its value ends before the
/// next one.
pub proof fn parameters_are_found(a: Seq<char>, key: Seq<char>, value: Seq<char>, more: Seq<char>)
    requires
        !a.contains(';') && !key.contains(';') && !value.contains(';'),
        !text::starts_with(text::trim(a), key),
        is_word(key) && is_word(value),
    ensures
        scan::param_value(a + seq![';'] + key + value, key) == Some(value),
        scan::param_value(a + seq![';'] + key + value + seq![';'] + more, key) == Some(value),
{
    let kv = key + value;
    let one = a + seq![';'] + key + value;
    let n = a.len() as int;
    assert(one[n] == ';');
    assert forall|i: int| 0 <= i < n implies one[i] != ';' by {
        assert(one[i] == a[i]);
    }
    found_at(one, ';', n);
    assert(one.subrange(0, n) =~= a);
    assert(scan::rest(one, n + 1) =~= kv);
    assert forall|i: int| 0 <= i < kv.len() implies kv[i] != ';' && !text::is_space(kv[i]) by {
        if i < key.len() {
            assert(kv[i] == key[i]);
        } else {
            assert(kv[i] == value[i - key.len()]);
        }
    }
    found_at(kv, ';', kv.len() as int);
    assert(kv.subrange(0, kv.len() as int) =~= kv);
    assert(text::trim(kv) == kv);
    assert(kv.subrange(0, key.len() as int) =~= key);
    assert(scan::rest(kv, key.len() as int) =~= value);
    assert(text::trim(value) == value);
    assert(scan::param_value(kv, key) == Some(value));
    let two = a + seq![';'] + key + value + seq![';'] + more;
    assert(two[n] == ';');
    assert forall|i: int| 0 <= i < n implies two[i] != ';' by {
        assert(two[i] == a[i]);
    }
    found_at(two, ';', n);
    assert(two.subrange(0, n) =~= a);
    let tail = kv + seq![';'] + more;
    assert(scan::rest(two, n + 1) =~= tail);
    let e = kv.len() as int;
    assert(tail[e] == ';');
    assert forall|i: int| 0 <= i < e implies tail[i] != ';' by {
        assert(tail[i] == kv[i]);
    }
    found_at(tail, ';', e);
    assert(tail.subrange(0, e) =~= kv);
    assert(scan::param_value(tail, key) == Some(value));
}

/// A registration lasts as long as its Expires header says; without one, as long as its
/// contact says.
pub proof fn lifetimes_are_read(m: SipModel, n: u64)
    ensures
        m.header("Expires"@) == Some(text::decimal(n as nat)) ==> m.expires() == Some(n as nat),
        m.header("Expires"@) is None && (m.header("Contact"@) matches Some(c) && scan::param_value(
            c,
            "expires="@,
        ) == Some(text::decimal(n as nat))) ==> m.expires() == Some(n as nat),
        m.header("Expires"@) is None && m.header("Contact"@) is None ==> m.expires() is None,
{
    reveal_strlit("Expires");
    reveal_strlit("expires");
    reveal_strlit("Contact");
    reveal_strlit("contact");
    assert(text::lower_text("Expires"@) =~= "expires"@);
    assert(text::lower_text("expires"@) =~= "expires"@);
    assert(text::lower_text("Contact"@) =~= "contact"@);
    assert(text::lower_text("contact"@) =~= "contact"@);
    let d = text::decimal(n as nat);
    text::decimal_round_trip(n as nat);
    assert(text::is_digit(d[0]));
    assert(text::is_digit(d.last()));
    digits_are_no_space(d[0]);
    digits_are_no_space(d.last());
    assert(text::trim(d) == d);
}

/// A compact header name stands for the long one, in either case; any other name stands
/// for itself.
pub proof fn compact_names_are_expanded(value: Seq<char>)
    ensures
        message::folded_headers("f"@, value) == seq![HeaderModel { name: "from"@, value }],
        message::folded_headers("F"@, value) == seq![HeaderModel { name: "from"@, value }],
        message::folded_headers("t"@, value) == seq![HeaderModel { name: "to"@, value }],
        message::folded_headers("i"@, value) == seq![HeaderModel { name: "call-id"@, value }],
        message::folded_headers("m"@, value) == seq![HeaderModel { name: "contact"@, value }],
        message::folded_headers("c"@, value) == seq![HeaderModel { name: "content-type"@, value }],
        message::folded_headers("l"@, value) == seq![
            HeaderModel { name: "content-length"@, value },
        ],
        message::folded_headers("CSeq"@, value) == seq![HeaderModel { name: "cseq"@, value }],
{
    reveal_strlit("v");
    reveal_strlit("f");
    reveal_strlit("F");
    reveal_strlit("t");
    reveal_strlit("i");
    reveal_strlit("m");
    reveal_strlit("c");
    reveal_strlit("l");
    reveal_strlit("s");
    reveal_strlit("k");
    reveal_strlit("via");
    reveal_strlit("route");
    reveal_strlit("record-route");
    reveal_strlit("from");
    reveal_strlit("to");
    reveal_strlit("call-id");
    reveal_strlit("contact");
    reveal_strlit("content-type");
    reveal_strlit("content-length");
    reveal_strlit("CSeq");
    reveal_strlit("cseq");
    assert(text::lower_text("f"@) =~= "f"@);
    assert(text::lower_text("F"@) =~= "f"@);
    assert(text::lower_text("t"@) =~= "t"@);
    assert(text::lower_text("i"@) =~= "i"@);
    assert(text::lower_text("m"@) =~= "m"@);
    assert(text::lower_text("c"@) =~= "c"@);
    assert(text::lower_text("l"@) =~= "l"@);
    assert(text::lower_text("CSeq"@) =~= "cseq"@);
    assert("f"@[0] == 'f' && "t"@[0] == 't' && "i"@[0] == 'i' && "m"@[0] == 'm' && "c"@[0] == 'c'
        && "l"@[0] == 'l' && "v"@[0] == 'v');
    assert("content-type"@[0] == 'c' && "record-route"@[0] == 'r');
    assert("cseq"@.len() == 4 && "from"@.len() == 4 && "to"@.len() == 2 && "call-id"@.len() == 7
        && "contact"@.len() == 7 && "content-length"@.len() == 14);
}

/// Whether a text has nothing in it that parts or groups listed values.
pub open spec fn unlisted(s: Seq<char>) -> bool {
    forall|i: int|
        0 <= i < s.len() ==> #[trigger] s[i] != ',' && s[i] != '"' && s[i] != '<' && s[i] != '>'
}

proof fn plain_text_is_gathered(before: Seq<char>, s: Seq<char>)
    requires
        unlisted(s),
    ensures
        message::comma_state(before + s) == (CommaState {
            current: message::comma_state(before).current + s,
            ..message::comma_state(before)
        }),
    decreases s.len(),
{
    let b = message::comma_state(before);
    if s.len() == 0 {
        assert(before + s =~= before);
        assert(b.current + s =~= b.current);
    } else {
        let t = s.drop_last();
        assert forall|i: int| 0 <= i < t.len() implies #[trigger] t[i] != ',' && t[i] != '"' && t[i]
            != '<' && t[i] != '>' by {
            assert(t[i] == s[i]);
        }
        plain_text_is_gathered(before, t);
        assert((before + s).drop_last() =~= before + t);
        assert((before + s).last() == s.last());
        assert(s.last() == s[s.len() - 1]);
        assert((b.current + t).push(s.last()) =~= b.current + s);
    }
}

/// Listed values are parted at their commas, and each goes into a line of its own, without
/// the white space around it.
pub proof fn listed_values_stand_alone(a: Seq<char>, b: Seq<char>)
    requires
        unlisted(a),
        unlisted(b),
        text::trim(b).len() > 0,
    ensures
        message::comma_pieces(a + seq![','] + b) == seq![a, b],
        message::comma_pieces(b) == seq![b],
        message::folded_headers("Via"@, a + seq![','] + b) == seq![
            HeaderModel { name: "via"@, value: text::trim(a) },
            HeaderModel { name: "via"@, value: text::trim(b) },
        ],
{
    let none = Seq::<char>::empty();
    plain_text_is_gathered(none, a);
    assert(none + a =~= a);
    let s = a + seq![','];
    assert(s.drop_last() =~= a);
    assert(message::comma_state(a).current =~= a);
    plain_text_is_gathered(s, b);
    let e = message::comma_state(s + b);
    assert(message::comma_state(s).current =~= none);
    assert(e.current =~= b);
    assert(e.pieces =~= seq![a]);
    assert(message::comma_pieces(s + b) =~= seq![a, b]);
    plain_text_is_gathered(none, b);
    assert(none + b =~= b);
    assert(message::comma_state(b).current =~= b);
    assert(message::comma_pieces(b) =~= seq![b]);
    reveal_strlit("Via");
    reveal_strlit("via");
    reveal_strlit("v");
    reveal_strlit("f");
    reveal_strlit("t");
    reveal_strlit("i");
    reveal_strlit("m");
    reveal_strlit("c");
    reveal_strlit("l");
    reveal_strlit("s");
    reveal_strlit("k");
    assert(text::lower_text("Via"@) =~= "via"@);
    assert(message::expanded_name("via"@) == "via"@);
    assert(message::folded_headers("Via"@, s + b) =~= seq![
        HeaderModel { name: "via"@, value: text::trim(a) },
        HeaderModel { name: "via"@, value: text::trim(b) },
    ]);
}

/// The tag of an address is found behind it.
pub proof fn tags_are_found(m: SipModel, name: Seq<char>, a: Seq<char>, tag: Seq<char>)
    requires
        m.header(name) == Some(a + seq![';'] + "tag="@ + tag),
        !a.contains(';') && !tag.contains(';'),
        !text::starts_with(text::trim(a), "tag="@),
        is_word(tag),
    ensures
        m.tag_of(name) == Some(tag),
{
    reveal_strlit("tag=");
    assert(!"tag="@.contains(';'));
    assert(is_word("tag="@)) by {
        assert forall|i: int| 0 <= i < "tag="@.len() implies !text::is_space(#[trigger] "tag="@[i]) by {
            let c = "tag="@[i];
            assert(c == 't' || c == 'a' || c == 'g' || c == '=');
            text_laws::visible_characters_are_no_space(c);
        }
    }
    parameters_are_found(a, "tag="@, tag, Seq::empty());
}

} // verus!

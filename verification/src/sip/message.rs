//! SIP messages: lenient parsing, strict building.
use crate::bytes::copy_range;
use crate::scan;
use crate::scan::{copy_chars, find_param, search_bytes, split_lines, split_words, without_prefixes};
use crate::text;
use crate::text::{
    chars_of, find_char_from, has_prefix, is_space_char, lossy_text, parse_unsigned, push_chars,
    push_decimal, push_text, same_chars, string_of, text_bytes, to_lower, trim_chars,
};
use vstd::prelude::*;
use vstd::slice::slice_subrange;

verus! {

/// A SIP method. Unknown methods are kept as `Other`.
#[derive(Debug, Clone, PartialEq, Eq)]
pub enum Method {
    Register,
    Invite,
    Ack,
    Bye,
    Cancel,
    Options,
    Info,
    Other(String),
}

/// A method by its name.
pub enum MethodModel {
    Register,
    Invite,
    Ack,
    Bye,
    Cancel,
    Options,
    Info,
    Other(Seq<char>),
}

impl View for Method {
    type V = MethodModel;

    open spec fn view(&self) -> MethodModel {
        match *self {
            Method::Register => MethodModel::Register,
            Method::Invite => MethodModel::Invite,
            Method::Ack => MethodModel::Ack,
            Method::Bye => MethodModel::Bye,
            Method::Cancel => MethodModel::Cancel,
            Method::Options => MethodModel::Options,
            Method::Info => MethodModel::Info,
            Method::Other(s) => MethodModel::Other(s@),
        }
    }
}

impl MethodModel {
    /// Name of the method on the wire.
    pub open spec fn name(self) -> Seq<char> {
        match self {
            MethodModel::Register => "REGISTER"@,
            MethodModel::Invite => "INVITE"@,
            MethodModel::Ack => "ACK"@,
            MethodModel::Bye => "BYE"@,
            MethodModel::Cancel => "CANCEL"@,
            MethodModel::Options => "OPTIONS"@,
            MethodModel::Info => "INFO"@,
            MethodModel::Other(s) => s,
        }
    }

    /// The method with a given name; the case of known names does not matter.
    pub open spec fn named(s: Seq<char>) -> MethodModel {
        let u = upper_text(s);
        if u == "REGISTER"@ {
            MethodModel::Register
        } else if u == "INVITE"@ {
            MethodModel::Invite
        } else if u == "ACK"@ {
            MethodModel::Ack
        } else if u == "BYE"@ {
            MethodModel::Bye
        } else if u == "CANCEL"@ {
            MethodModel::Cancel
        } else if u == "OPTIONS"@ {
            MethodModel::Options
        } else if u == "INFO"@ {
            MethodModel::Info
        } else {
            MethodModel::Other(s)
        }
    }
}

/// ASCII upper case of a character.
pub open spec fn upper(c: char) -> char {
    if 'a' <= c <= 'z' {
        (c as u32 - 32) as char
    } else {
        c
    }
}

/// ASCII upper case of a text.
pub open spec fn upper_text(s: Seq<char>) -> Seq<char> {
    s.map_values(|c: char| upper(c))
}

fn upper_char(c: char) -> (r: char)
    ensures
        r == upper(c),
{
    if 'a' <= c && c <= 'z' {
        (c as u8 - 32) as char
    } else {
        c
    }
}

fn to_upper(s: &[char]) -> (r: Vec<char>)
    ensures
        r@ == upper_text(s@),
{
    let mut out: Vec<char> = Vec::new();
    let mut i: usize = 0;
    while i < s.len()
        invariant
            i <= s@.len(),
            out@ == upper_text(s@.subrange(0, i as int)),
        decreases s@.len() - i,
    {
        out.push(upper_char(s[i]));
        i += 1;
        assert(out@ =~= upper_text(s@.subrange(0, i as int)));
    }
    assert(s@.subrange(0, i as int) =~= s@);
    out
}

/// Whether characters spell a given text.
fn spells(s: &[char], t: &str) -> (r: bool)
    ensures
        r == (s@ == t@),
{
    let u = chars_of(t);
    same_chars(s, &u)
}

impl Method {
    pub fn as_str(&self) -> (r: &str)
        ensures
            r@ == self@.name(),
    {
        match self {
            Method::Register => "REGISTER",
            Method::Invite => "INVITE",
            Method::Ack => "ACK",
            Method::Bye => "BYE",
            Method::Cancel => "CANCEL",
            Method::Options => "OPTIONS",
            Method::Info => "INFO",
            Method::Other(s) => s.as_str(),
        }
    }

    pub fn parse(s: &str) -> (r: Method)
        ensures
            r@ == MethodModel::named(s@),
    {
        let v = chars_of(s);
        let u = to_upper(&v);
        if spells(&u, "REGISTER") {
            Method::Register
        } else if spells(&u, "INVITE") {
            Method::Invite
        } else if spells(&u, "ACK") {
            Method::Ack
        } else if spells(&u, "BYE") {
            Method::Bye
        } else if spells(&u, "CANCEL") {
            Method::Cancel
        } else if spells(&u, "OPTIONS") {
            Method::Options
        } else if spells(&u, "INFO") {
            Method::Info
        } else {
            Method::Other(s.to_owned())
        }
    }
}

/// Either a request line or a status line.
#[derive(Debug, Clone)]
pub enum StartLine {
    Request { method: Method, uri: String },
    Status { code: u16, reason: String },
}

pub enum StartModel {
    Request { method: MethodModel, uri: Seq<char> },
    Status { code: u16, reason: Seq<char> },
}

impl View for StartLine {
    type V = StartModel;

    open spec fn view(&self) -> StartModel {
        match *self {
            StartLine::Request { method, uri } => StartModel::Request {
                method: method@,
                uri: uri@,
            },
            StartLine::Status { code, reason } => StartModel::Status { code, reason: reason@ },
        }
    }
}

/// One header line. Its name is kept in lower case.
#[derive(Debug)]
pub struct HeaderLine {
    name: String,
    value: String,
}

/// A SIP message. The headers keep their order, so that headers with several
/// values (Via, Route) are emitted as they were added.
#[derive(Debug, Clone)]
pub struct SipMessage {
    pub start: StartLine,
    pub lines: Vec<HeaderLine>,
    pub body: Vec<u8>,
}

/// A header by its lower-case name and its value.
pub struct HeaderModel {
    pub name: Seq<char>,
    pub value: Seq<char>,
}

impl View for HeaderLine {
    type V = HeaderModel;

    closed spec fn view(&self) -> HeaderModel {
        HeaderModel { name: self.name@, value: self.value@ }
    }
}

impl HeaderLine {
    #[verifier::type_invariant]
    spec fn lower_case(self) -> bool {
        text::lower_text(self.name@) == self.name@
    }

    /// A header line; the case of the name does not matter.
    pub fn new(name: &str, value: &str) -> (r: Self)
        ensures
            r@ == (HeaderModel { name: text::lower_text(name@), value: value@ }),
    {
        let n = chars_of(name);
        let key = string_of(&to_lower(&n));
        proof {
            lower_text_is_lower(name@);
        }
        HeaderLine { name: key, value: value.to_owned() }
    }

    /// The name in lower case.
    pub fn name(&self) -> (r: &str)
        ensures
            r@ == self@.name,
            text::lower_text(r@) == r@,
    {
        proof {
            use_type_invariant(self);
        }
        self.name.as_str()
    }

    pub fn value(&self) -> (r: &str)
        ensures
            r@ == self@.value,
    {
        self.value.as_str()
    }
}

impl Clone for HeaderLine {
    fn clone(&self) -> (r: Self)
        ensures
            r@ == self@,
    {
        proof {
            use_type_invariant(self);
        }
        HeaderLine { name: self.name.clone(), value: self.value.clone() }
    }
}

/// Lower case is in lower case.
proof fn lower_text_is_lower(s: Seq<char>)
    ensures
        text::lower_text(text::lower_text(s)) == text::lower_text(s),
{
    assert(text::lower_text(text::lower_text(s)) =~= text::lower_text(s));
}

/// What a SIP message says.
#[verifier::ext_equal]
pub struct SipModel {
    pub start: StartModel,
    pub headers: Seq<HeaderModel>,
    pub body: Seq<u8>,
}

/// Header lines by their models.
pub open spec fn header_models(v: Seq<HeaderLine>) -> Seq<HeaderModel> {
    v.map_values(|h: HeaderLine| h@)
}

impl View for SipMessage {
    type V = SipModel;

    open spec fn view(&self) -> SipModel {
        SipModel {
            start: self.start@,
            headers: header_models(self.lines@),
            body: self.body@,
        }
    }
}

/// The values of a header, in order.
pub open spec fn values_of(headers: Seq<HeaderModel>, name: Seq<char>) -> Seq<Seq<char>>
    decreases headers.len(),
{
    if headers.len() == 0 {
        Seq::empty()
    } else {
        let before = values_of(headers.drop_last(), name);
        if headers.last().name == name {
            before.push(headers.last().value)
        } else {
            before
        }
    }
}

/// The first value of a sequence of values.
pub open spec fn first_of(values: Seq<Seq<char>>) -> Option<Seq<char>> {
    if values.len() > 0 {
        Some(values[0])
    } else {
        None
    }
}

/// The headers other than those with a given name.
pub open spec fn headers_except(headers: Seq<HeaderModel>, name: Seq<char>) -> Seq<HeaderModel> {
    headers.filter(|h: HeaderModel| h.name != name)
}

impl SipModel {
    /// First value of a header; the case of the name does not matter.
    pub open spec fn header(self, name: Seq<char>) -> Option<Seq<char>> {
        first_of(values_of(self.headers, text::lower_text(name)))
    }

    /// The message with one more header line.
    pub open spec fn with_header(self, name: Seq<char>, value: Seq<char>) -> SipModel {
        SipModel {
            headers: self.headers.push(HeaderModel { name: text::lower_text(name), value }),
            ..self
        }
    }

    /// The message with a header set to a single value, at the end.
    pub open spec fn with_single_header(self, name: Seq<char>, value: Seq<char>) -> SipModel {
        SipModel {
            headers: headers_except(self.headers, text::lower_text(name)).push(
                HeaderModel { name: text::lower_text(name), value },
            ),
            ..self
        }
    }

    /// The sequence number and method of the CSeq header.
    pub open spec fn cseq(self) -> Option<(u32, Seq<char>)> {
        match self.header("cseq"@) {
            None => None,
            Some(raw) => {
                let w = scan::words(raw);
                if w.len() == 0 {
                    None
                } else {
                    match text::bounded_value(w[0], u32::MAX as nat) {
                        None => None,
                        Some(n) => Some(
                            (
                                n as u32,
                                if w.len() > 1 {
                                    w[1]
                                } else {
                                    Seq::empty()
                                },
                            ),
                        ),
                    }
                }
            },
        }
    }

    /// The tag parameter of a header.
    pub open spec fn tag_of(self, name: Seq<char>) -> Option<Seq<char>> {
        match self.header(name) {
            Some(h) => scan::param_value(h, "tag="@),
            None => None,
        }
    }

    /// Lifetime in seconds: from the Expires header, or else from the
    /// `expires` parameter of Contact.
    pub open spec fn expires(self) -> Option<nat> {
        let own = match self.header("expires"@) {
            Some(v) => text::bounded_value(text::trim(v), u64::MAX as nat),
            None => None,
        };
        match own {
            Some(n) => Some(n),
            None => match self.header("contact"@) {
                Some(c) => match scan::param_value(c, "expires="@) {
                    Some(v) => text::bounded_value(v, u64::MAX as nat),
                    None => None,
                },
                None => None,
            },
        }
    }
}

/// Characters of the first value of a header.
fn copy_text(o: Option<&str>) -> (r: Option<Vec<char>>)
    ensures
        match r {
            Some(v) => o is Some && v@ == o->0@,
            None => o is None,
        },
{
    match o {
        Some(s) => Some(chars_of(s)),
        None => None,
    }
}

impl SipMessage {
    pub fn new_request(method: Method, uri: &str) -> (r: Self)
        ensures
            r@ == (SipModel {
                start: StartModel::Request { method: method@, uri: uri@ },
                headers: Seq::empty(),
                body: Seq::empty(),
            }),
    {
        let r = SipMessage {
            start: StartLine::Request { method, uri: uri.to_owned() },
            lines: Vec::new(),
            body: Vec::new(),
        };
        assert(r@.headers =~= Seq::<HeaderModel>::empty());
        r
    }

    pub fn new_response(code: u16, reason: &str) -> (r: Self)
        ensures
            r@ == (SipModel {
                start: StartModel::Status { code, reason: reason@ },
                headers: Seq::empty(),
                body: Seq::empty(),
            }),
    {
        let r = SipMessage {
            start: StartLine::Status { code, reason: reason.to_owned() },
            lines: Vec::new(),
            body: Vec::new(),
        };
        assert(r@.headers =~= Seq::<HeaderModel>::empty());
        r
    }

    pub fn is_request(&self) -> (r: bool)
        ensures
            r == (self@.start is Request),
    {
        match &self.start {
            StartLine::Request { .. } => true,
            StartLine::Status { .. } => false,
        }
    }

    pub fn method(&self) -> (r: Option<&Method>)
        ensures
            match r {
                Some(m) => self@.start is Request && self@.start->method == m@,
                None => self@.start is Status,
            },
    {
        match &self.start {
            StartLine::Request { method, .. } => Some(method),
            StartLine::Status { .. } => None,
        }
    }

    pub fn status_code(&self) -> (r: Option<u16>)
        ensures
            match r {
                Some(c) => self@.start is Status && self@.start->code == c,
                None => self@.start is Request,
            },
    {
        match &self.start {
            StartLine::Status { code, .. } => Some(*code),
            StartLine::Request { .. } => None,
        }
    }

    /// Replaces the body.
    pub fn set_body(&mut self, body: Vec<u8>)
        ensures
            final(self)@ == (SipModel { body: body@, ..old(self)@ }),
    {
        self.body = body;
    }

    /// Adds a header line, after those that are there.
    pub fn push_header(&mut self, name: &str, value: &str)
        ensures
            final(self)@ == old(self)@.with_header(name@, value@),
    {
        let line = HeaderLine::new(name, value);
        let ghost m = line@;
        self.lines.push(line);
        assert(self@.headers =~= old(self)@.headers.push(m));
    }

    /// Sets a header to a single value, replacing any that it had.
    pub fn set_header(&mut self, name: &str, value: &str)
        ensures
            final(self)@ == old(self)@.with_single_header(name@, value@),
    {
        let n = chars_of(name);
        let key = to_lower(&n);
        let ghost whole = self.lines@;
        let ghost want = |h: HeaderModel| h.name != key@;
        let mut left: Vec<HeaderLine> = Vec::new();
        let mut i: usize = 0;
        assert(header_models(whole).subrange(0, 0).filter(want) =~= Seq::<HeaderModel>::empty());
        assert(header_models(left@) =~= Seq::<HeaderModel>::empty());
        while i < self.lines.len()
            invariant
                i <= self.lines@.len(),
                self.lines@ == whole,
                self.start == old(self).start,
                self.body == old(self).body,
                want == (|h: HeaderModel| h.name != key@),
                header_models(left@) == header_models(whole).subrange(0, i as int).filter(want),
            decreases self.lines@.len() - i,
        {
            let h = &self.lines[i];
            let other = chars_of(h.name.as_str());
            let keep = !same_chars(&other, &key);
            let ghost before = header_models(left@);
            if keep {
                left.push(h.clone());
            }
            proof {
                let a = header_models(whole).subrange(0, i as int);
                let b = header_models(whole).subrange(0, i + 1);
                assert(b =~= a.push(header_models(whole)[i as int]));
                assert(b.drop_last() =~= a);
                reveal(Seq::filter);
                if keep {
                    assert(header_models(left@) =~= before.push(h@));
                }
            }
            i += 1;
        }
        assert(header_models(whole).subrange(0, i as int) =~= header_models(whole));
        self.lines = left;
        self.push_header(name, value);
        assert(self@.headers =~= old(self)@.with_single_header(name@, value@).headers);
    }

    /// First value of a header, if present.
    pub fn header(&self, name: &str) -> (r: Option<&str>)
        ensures
            match r {
                Some(v) => self@.header(name@) == Some(v@),
                None => self@.header(name@) is None,
            },
    {
        let n = chars_of(name);
        let key = to_lower(&n);
        let mut i: usize = 0;
        proof {
            assert(header_models(self.lines@).subrange(0, 0) =~= Seq::<HeaderModel>::empty());
        }
        while i < self.lines.len()
            invariant
                i <= self.lines@.len(),
                key@ == text::lower_text(name@),
                values_of(header_models(self.lines@).subrange(0, i as int), key@).len() == 0,
            decreases self.lines@.len() - i,
        {
            let h = &self.lines[i];
            proof {
                let b = header_models(self.lines@).subrange(0, i + 1);
                assert(b.drop_last() =~= header_models(self.lines@).subrange(0, i as int));
                assert(b.last() == h@);
            }
            if spells_key(&h.name, &key) {
                proof {
                    values_of_prefix(header_models(self.lines@), i + 1, key@);
                }
                return Some(h.value.as_str());
            }
            i += 1;
        }
        assert(header_models(self.lines@).subrange(0, i as int) =~= header_models(self.lines@));
        None
    }

    /// All values of a header, in order.
    pub fn headers(&self, name: &str) -> (r: Vec<&str>)
        ensures
            r@.map_values(|s: &str| s@) == values_of(self@.headers, text::lower_text(name@)),
    {
        let n = chars_of(name);
        let key = to_lower(&n);
        let mut out: Vec<&str> = Vec::new();
        let mut i: usize = 0;
        proof {
            assert(header_models(self.lines@).subrange(0, 0) =~= Seq::<HeaderModel>::empty());
            assert(out@.map_values(|s: &str| s@) =~= Seq::<Seq<char>>::empty());
        }
        while i < self.lines.len()
            invariant
                i <= self.lines@.len(),
                out@.map_values(|s: &str| s@) == values_of(
                    header_models(self.lines@).subrange(0, i as int),
                    key@,
                ),
            decreases self.lines@.len() - i,
        {
            let h = &self.lines[i];
            proof {
                let b = header_models(self.lines@).subrange(0, i + 1);
                assert(b.drop_last() =~= header_models(self.lines@).subrange(0, i as int));
                assert(b.last() == h@);
            }
            let ghost before = out@.map_values(|s: &str| s@);
            if spells_key(&h.name, &key) {
                out.push(h.value.as_str());
                assert(out@.map_values(|s: &str| s@) =~= before.push(h.value@));
            }
            i += 1;
        }
        assert(header_models(self.lines@).subrange(0, i as int) =~= header_models(self.lines@));
        out
    }

    /// The topmost Via value, which names the hop that a message came from.
    pub fn top_via(&self) -> (r: Option<&str>)
        ensures
            match r {
                Some(v) => self@.header("via"@) == Some(v@),
                None => self@.header("via"@) is None,
            },
    {
        self.header("via")
    }

    /// Call-ID, the identifier of a dialog or registration.
    pub fn call_id(&self) -> (r: Option<&str>)
        ensures
            match r {
                Some(v) => self@.header("call-id"@) == Some(v@),
                None => self@.header("call-id"@) is None,
            },
    {
        self.header("call-id")
    }

    /// CSeq as a number and a method name.
    pub fn cseq(&self) -> (r: Option<(u32, String)>)
        ensures
            match r {
                Some((n, m)) => self@.cseq() == Some((n, m@)),
                None => self@.cseq() is None,
            },
    {
        let raw = match self.header("cseq") {
            Some(s) => chars_of(s),
            None => {
                return None;
            },
        };
        let w = split_words(&raw);
        assert(w@.len() == scan::words(raw@).len());
        if w.len() == 0 {
            return None;
        }
        assert(scan::views(w@)[0] == w@[0]@);
        match parse_unsigned(w[0].as_slice(), u32::MAX as u64) {
            Some(n) => {
                if w.len() > 1 {
                    assert(scan::views(w@)[1] == w@[1]@);
                    Some((n as u32, string_of(w[1].as_slice())))
                } else {
                    Some((n as u32, String::new()))
                }
            },
            None => None,
        }
    }

    /// The tag parameter of From.
    pub fn from_tag(&self) -> (r: Option<String>)
        ensures
            crate::protocol::opt_text(r) == self@.tag_of("from"@),
    {
        match self.header("from") {
            Some(h) => parse_tag(h),
            None => None,
        }
    }

    /// The tag parameter of To.
    pub fn to_tag(&self) -> (r: Option<String>)
        ensures
            crate::protocol::opt_text(r) == self@.tag_of("to"@),
    {
        match self.header("to") {
            Some(h) => parse_tag(h),
            None => None,
        }
    }

    /// Lifetime from Expires, or from the `expires` parameter of Contact.
    pub fn expires(&self) -> (r: Option<u64>)
        ensures
            match r {
                Some(n) => self@.expires() == Some(n as nat),
                None => self@.expires() is None,
            },
    {
        match copy_text(self.header("expires")) {
            Some(v) => {
                let t = trim_chars(&v);
                match parse_unsigned(t, u64::MAX) {
                    Some(n) => {
                        return Some(n);
                    },
                    None => {},
                }
            },
            None => {},
        }
        let contact = match self.header("contact") {
            Some(c) => chars_of(c),
            None => {
                return None;
            },
        };
        let key = chars_of("expires=");
        match find_param(&contact, &key) {
            Some(v) => parse_unsigned(&v, u64::MAX),
            None => None,
        }
    }
}

fn spells_key(name: &String, key: &Vec<char>) -> (r: bool)
    ensures
        r == (name@ == key@),
{
    let n = chars_of(name.as_str());
    same_chars(&n, key)
}

/// The values in the first lines are the first values.
proof fn values_of_prefix(headers: Seq<HeaderModel>, k: int, name: Seq<char>)
    requires
        0 <= k <= headers.len(),
    ensures
        ({
            let a = values_of(headers.subrange(0, k), name);
            let b = values_of(headers, name);
            &&& a.len() <= b.len()
            &&& forall|i: int| 0 <= i < a.len() ==> a[i] == b[i]
        }),
    decreases headers.len() - k,
{
    if k < headers.len() {
        values_of_prefix(headers, k + 1, name);
        let c = headers.subrange(0, k + 1);
        assert(c.drop_last() =~= headers.subrange(0, k));
        let a = values_of(headers.subrange(0, k), name);
        let b = values_of(c, name);
        assert(forall|i: int| 0 <= i < a.len() ==> a[i] == b[i]);
    } else {
        assert(headers.subrange(0, k) =~= headers);
    }
}

/// The value of a `tag=` parameter.
pub fn parse_tag(header: &str) -> (r: Option<String>)
    ensures
        crate::protocol::opt_text(r) == scan::param_value(header@, "tag="@),
{
    let h = chars_of(header);
    let key = chars_of("tag=");
    match find_param(&h, &key) {
        Some(v) => Some(string_of(&v)),
        None => None,
    }
}

/// Long name of a header whose name, in lower case, is given.
pub open spec fn expanded_name(n: Seq<char>) -> Seq<char> {
    if n == "v"@ {
        "via"@
    } else if n == "f"@ {
        "from"@
    } else if n == "t"@ {
        "to"@
    } else if n == "i"@ {
        "call-id"@
    } else if n == "m"@ {
        "contact"@
    } else if n == "c"@ {
        "content-type"@
    } else if n == "l"@ {
        "content-length"@
    } else if n == "s"@ {
        "subject"@
    } else if n == "k"@ {
        "supported"@
    } else {
        n
    }
}

fn expand_name(n: &[char]) -> (r: Vec<char>)
    ensures
        r@ == expanded_name(n@),
{
    if spells(n, "v") {
        chars_of("via")
    } else if spells(n, "f") {
        chars_of("from")
    } else if spells(n, "t") {
        chars_of("to")
    } else if spells(n, "i") {
        chars_of("call-id")
    } else if spells(n, "m") {
        chars_of("contact")
    } else if spells(n, "c") {
        chars_of("content-type")
    } else if spells(n, "l") {
        chars_of("content-length")
    } else if spells(n, "s") {
        chars_of("subject")
    } else if spells(n, "k") {
        chars_of("supported")
    } else {
        let r = copy_chars(n, 0, n.len());
        assert(r@ =~= n@);
        r
    }
}

/// Whether a header may list several values in one line.
pub open spec fn is_listed(n: Seq<char>) -> bool {
    n == "via"@ || n == "route"@ || n == "record-route"@
}

/// Progress of cutting a text at commas: the pieces so far, the piece being
/// read, whether it stands in quotes, and how many angle brackets are open.
pub struct CommaState {
    pub pieces: Seq<Seq<char>>,
    pub current: Seq<char>,
    pub quoted: bool,
    pub depth: int,
}

/// The state after a text, character by character. A comma cuts outside
/// quotes and angle brackets only.
pub open spec fn comma_state(s: Seq<char>) -> CommaState
    decreases s.len(),
{
    if s.len() == 0 {
        CommaState { pieces: Seq::empty(), current: Seq::empty(), quoted: false, depth: 0 }
    } else {
        let b = comma_state(s.drop_last());
        let c = s.last();
        if c == ',' && !b.quoted && b.depth == 0 {
            CommaState { pieces: b.pieces.push(b.current), current: Seq::empty(), ..b }
        } else {
            CommaState {
                current: b.current.push(c),
                quoted: if c == '"' {
                    !b.quoted
                } else {
                    b.quoted
                },
                depth: if c == '<' && !b.quoted {
                    b.depth + 1
                } else if c == '>' && !b.quoted {
                    b.depth - 1
                } else {
                    b.depth
                },
                ..b
            }
        }
    }
}

/// The pieces of a text that commas outside quotes and angle brackets
/// separate; a blank last piece does not count.
pub open spec fn comma_pieces(s: Seq<char>) -> Seq<Seq<char>> {
    let e = comma_state(s);
    if text::trim(e.current).len() == 0 {
        e.pieces
    } else {
        e.pieces.push(e.current)
    }
}

/// Cuts a text at commas outside quotes and angle brackets.
pub fn split_commas_outside_quotes(s: &[char]) -> (r: Vec<Vec<char>>)
    ensures
        scan::views(r@) == comma_pieces(s@),
{
    let mut out: Vec<Vec<char>> = Vec::new();
    let mut depth: i128 = 0;
    let mut in_quotes = false;
    let mut cur: Vec<char> = Vec::new();
    let mut i: usize = 0;
    assert(scan::views(out@) =~= Seq::<Seq<char>>::empty());
    assert(s@.subrange(0, 0) =~= Seq::<char>::empty());
    while i < s.len()
        invariant
            i <= s@.len(),
            -(i as int) <= depth <= i,
            comma_state(s@.subrange(0, i as int)) == (CommaState {
                pieces: scan::views(out@),
                current: cur@,
                quoted: in_quotes,
                depth: depth as int,
            }),
        decreases s@.len() - i,
    {
        let c = s[i];
        proof {
            let b = s@.subrange(0, i + 1);
            assert(b.drop_last() =~= s@.subrange(0, i as int));
            assert(b.last() == c);
        }
        if c == ',' && !in_quotes && depth == 0 {
            let ghost before = scan::views(out@);
            let mut piece: Vec<char> = Vec::new();
            std::mem::swap(&mut piece, &mut cur);
            out.push(piece);
            assert(scan::views(out@) =~= before.push(piece@));
            assert(cur@ =~= Seq::<char>::empty());
        } else {
            if c == '<' && !in_quotes {
                depth += 1;
            }
            if c == '>' && !in_quotes {
                depth -= 1;
            }
            if c == '"' {
                in_quotes = !in_quotes;
            }
            cur.push(c);
        }
        i += 1;
    }
    assert(s@.subrange(0, i as int) =~= s@);
    if trim_chars(&cur).len() != 0 {
        let ghost before = scan::views(out@);
        out.push(cur);
        assert(scan::views(out@) =~= before.push(cur@));
    }
    out
}

/// The header lines that one line of a message makes: compact names are
/// expanded, and listed values stand in lines of their own.
pub open spec fn folded_headers(name: Seq<char>, value: Seq<char>) -> Seq<HeaderModel> {
    let n = expanded_name(text::lower_text(name));
    if is_listed(n) {
        comma_pieces(value).map_values(|p: Seq<char>| HeaderModel { name: n, value: text::trim(p) })
    } else {
        seq![HeaderModel { name: n, value }]
    }
}

/// A compact name in lower case is expanded to one in lower case.
proof fn expanded_is_lower(n: Seq<char>)
    requires
        text::lower_text(n) == n,
    ensures
        text::lower_text(expanded_name(n)) == expanded_name(n),
{
    reveal_strlit("via");
    reveal_strlit("from");
    reveal_strlit("to");
    reveal_strlit("call-id");
    reveal_strlit("contact");
    reveal_strlit("content-type");
    reveal_strlit("content-length");
    reveal_strlit("subject");
    reveal_strlit("supported");
    let e = expanded_name(n);
    assert(text::lower_text(e) =~= e);
}

fn push_folded(msg: &mut SipMessage, name: &[char], value: &[char])
    ensures
        final(msg)@ == (SipModel {
            headers: old(msg)@.headers + folded_headers(name@, value@),
            ..old(msg)@
        }),
{
    let lower = to_lower(name);
    let expanded = expand_name(&lower);
    proof {
        lower_text_is_lower(name@);
        expanded_is_lower(lower@);
    }
    let key = string_of(&expanded);
    let ghost want = folded_headers(name@, value@);
    let ghost before = msg@.headers;
    if spells(&expanded, "via") || spells(&expanded, "route") || spells(&expanded, "record-route") {
        let parts = split_commas_outside_quotes(value);
        let mut i: usize = 0;
        assert(before + want.subrange(0, 0) =~= before);
        assert(want.len() == parts@.len());
        while i < parts.len()
            invariant
                i <= parts@.len(),
                key@ == expanded@,
                text::lower_text(key@) == key@,
                want.len() == parts@.len(),
                scan::views(parts@) == comma_pieces(value@),
                want == comma_pieces(value@).map_values(
                    |p: Seq<char>| HeaderModel { name: expanded@, value: text::trim(p) },
                ),
                msg@ == (SipModel {
                    headers: before + want.subrange(0, i as int),
                    ..old(msg)@
                }),
            decreases parts@.len() - i,
        {
            let p = trim_chars(parts[i].as_slice());
            assert(scan::views(parts@)[i as int] == parts@[i as int]@);
            msg.push_header(key.as_str(), string_of(p).as_str());
            assert(want[i as int] == (HeaderModel { name: expanded@, value: p@ }));
            assert((before + want.subrange(0, i as int)).push(want[i as int]) =~= before
                + want.subrange(0, i + 1));
            i += 1;
        }
        assert(want.subrange(0, i as int) =~= want);
    } else {
        msg.push_header(key.as_str(), string_of(value).as_str());
        assert(before.push(HeaderModel { name: expanded@, value: value@ }) =~= before + want);
    }
}

/// What a start line says: a status line, or a request line with a method, a
/// target and a SIP version.
pub open spec fn start_model(line: Seq<char>) -> Option<StartModel> {
    if text::starts_with(line, "SIP/2.0 "@) {
        let tail = scan::rest(line, "SIP/2.0 "@.len() as int);
        let k = text::find_char(tail, ' ', 0);
        match text::bounded_value(tail.subrange(0, k), u16::MAX as nat) {
            None => None,
            Some(code) => Some(
                StartModel::Status {
                    code: code as u16,
                    reason: if k < tail.len() {
                        scan::rest(tail, k + 1)
                    } else {
                        Seq::empty()
                    },
                },
            ),
        }
    } else {
        let w = scan::words(line);
        if w.len() >= 3 && text::starts_with(w[2], "SIP/"@) {
            Some(StartModel::Request { method: MethodModel::named(w[0]), uri: w[1] })
        } else {
            None
        }
    }
}

/// Parses a start line.
pub fn parse_start_line(line: &[char]) -> (r: Option<StartLine>)
    ensures
        match r {
            Some(s) => start_model(line@) == Some(s@),
            None => start_model(line@) is None,
        },
{
    let status = chars_of("SIP/2.0 ");
    if has_prefix(line, &status) {
        let tail = slice_subrange(line, status.len(), line.len());
        let k: usize = find_char_from(tail, ' ', 0);
        match parse_unsigned(slice_subrange(tail, 0, k), u16::MAX as u64) {
            Some(code) => {
                let reason = if k < tail.len() {
                    string_of(slice_subrange(tail, k + 1, tail.len()))
                } else {
                    String::new()
                };
                Some(StartLine::Status { code: code as u16, reason })
            },
            None => None,
        }
    } else {
        let w = split_words(line);
        assert(w@.len() == scan::words(line@).len());
        if w.len() < 3 {
            return None;
        }
        assert(scan::views(w@)[0] == w@[0]@);
        assert(scan::views(w@)[1] == w@[1]@);
        assert(scan::views(w@)[2] == w@[2]@);
        let version = chars_of("SIP/");
        if !has_prefix(w[2].as_slice(), &version) {
            return None;
        }
        let name = string_of(w[0].as_slice());
        Some(
            StartLine::Request {
                method: Method::parse(name.as_str()),
                uri: string_of(w[1].as_slice()),
            },
        )
    }
}

/// Head and body of a datagram: what stands before and after the first blank
/// line, CRLF or else LF.
pub open spec fn head_body(d: Seq<u8>) -> (Seq<u8>, Seq<u8>) {
    match scan::find_text(d, seq![13u8, 10u8, 13u8, 10u8], 0) {
        Some(k) => (d.subrange(0, k), d.subrange(k + 4, d.len() as int)),
        None => match scan::find_text(d, seq![10u8, 10u8], 0) {
            Some(k) => (d.subrange(0, k), d.subrange(k + 2, d.len() as int)),
            None => (d, Seq::empty()),
        },
    }
}

/// Splits a datagram into head and body.
pub fn split_head_body(d: &[u8]) -> (r: (&[u8], &[u8]))
    ensures
        (r.0@, r.1@) == head_body(d@),
{
    let n: usize = d.len();
    let crlf: [u8; 4] = [13, 10, 13, 10];
    assert(crlf@ =~= seq![13u8, 10u8, 13u8, 10u8]);
    match search_bytes(d, &crlf) {
        Some(k) => (slice_subrange(d, 0, k), slice_subrange(d, k + 4, n)),
        None => {
            let lf: [u8; 2] = [10, 10];
            assert(lf@ =~= seq![10u8, 10u8]);
            match search_bytes(d, &lf) {
                Some(k) => (slice_subrange(d, 0, k), slice_subrange(d, k + 2, n)),
                None => {
                    let none = slice_subrange(d, n, n);
                    assert(none@ =~= Seq::<u8>::empty());
                    (d, none)
                },
            }
        },
    }
}

/// Progress of reading header lines: the headers so far, and the line being
/// read.
#[verifier::ext_equal]
pub struct FoldState {
    pub headers: Seq<HeaderModel>,
    pub current: Option<(Seq<char>, Seq<char>)>,
}

/// The headers once the line being read is complete.
pub open spec fn flushed(f: FoldState) -> Seq<HeaderModel> {
    match f.current {
        Some((name, value)) => f.headers + folded_headers(name, value),
        None => f.headers,
    }
}

/// One more line: blank lines do not count; a line that starts with a blank
/// continues the one before; any other completes it and starts a new one, if
/// it has a colon.
pub open spec fn fold_line(f: FoldState, line: Seq<char>) -> FoldState {
    if line.len() == 0 {
        f
    } else if line[0] == ' ' || line[0] == '\t' {
        match f.current {
            Some((name, value)) => FoldState {
                current: Some((name, value.push(' ') + text::trim(line))),
                ..f
            },
            None => f,
        }
    } else {
        let k = text::find_char(line, ':', 0);
        FoldState {
            headers: flushed(f),
            current: if k < line.len() {
                Some((text::trim(line.subrange(0, k)), text::trim(scan::rest(line, k + 1))))
            } else {
                None
            },
        }
    }
}

/// The state after some header lines.
pub open spec fn fold_lines(ls: Seq<Seq<char>>) -> FoldState
    decreases ls.len(),
{
    if ls.len() == 0 {
        FoldState { headers: Seq::empty(), current: None }
    } else {
        fold_line(fold_lines(ls.drop_last()), ls.last())
    }
}

/// A body cut to the length that its header gives.
pub open spec fn clipped(body: Seq<u8>, headers: Seq<HeaderModel>) -> Seq<u8> {
    match first_of(values_of(headers, "content-length"@)) {
        Some(v) => match text::bounded_value(text::trim(v), usize::MAX as nat) {
            Some(n) => if body.len() > n {
                body.subrange(0, n as int)
            } else {
                body
            },
            None => body,
        },
        None => body,
    }
}

/// What a message with the given text of its head and the given body says; nothing when
/// its start line is malformed.
pub open spec fn sip_model(head: Seq<char>, body: Seq<u8>) -> Option<SipModel> {
    let ls = scan::lines(head);
    match start_model(text::trim_end(ls[0])) {
        None => None,
        Some(start) => {
            let headers = flushed(fold_lines(ls.drop_first()));
            Some(SipModel { start, headers, body: clipped(body, headers) })
        },
    }
}

fn trim_end_chars(s: &[char]) -> (r: &[char])
    ensures
        r@ == text::trim_end(s@),
{
    let mut j: usize = s.len();
    assert(s@.subrange(0, j as int) =~= s@);
    while 0 < j && is_space_char(s[j - 1])
        invariant
            j <= s@.len(),
            text::trim_end(s@) == text::trim_end(s@.subrange(0, j as int)),
        decreases j,
    {
        assert(s@.subrange(0, j as int).drop_last() =~= s@.subrange(0, j - 1));
        j -= 1;
    }
    slice_subrange(s, 0, j)
}

proof fn lower_content_length()
    ensures
        text::lower_text("content-length"@) == "content-length"@,
{
    reveal_strlit("content-length");
    assert(text::lower_text("content-length"@) =~= "content-length"@);
}

impl SipMessage {
    /// Parses a message from one datagram. Malformed UTF-8 in the head is replaced, the
    /// body is kept as it is, and unknown headers are kept; a malformed start line gives
    /// nothing.
    pub fn parse(data: &[u8]) -> (r: Option<SipMessage>)
        ensures
            ({
                let (head, body) = head_body(data@);
                match r {
                    Some(m) => sip_model(text::read_text(head), body) == Some(m@),
                    None => sip_model(text::read_text(head), body) is None,
                }
            }),
    {
        let (head, body) = split_head_body(data);
        let text = lossy_text(head);
        let t = chars_of(text.as_str());
        SipMessage::parse_parts(&t, body)
    }

    /// Parses a message from the text of its head and from its body.
    pub fn parse_parts(head: &[char], body: &[u8]) -> (r: Option<SipMessage>)
        ensures
            match r {
                Some(m) => sip_model(head@, body@) == Some(m@),
                None => sip_model(head@, body@) is None,
            },
    {
        let ls = split_lines(head);
        assert(scan::views(ls@)[0] == ls@[0]@);
        let start = match parse_start_line(trim_end_chars(ls[0].as_slice())) {
            Some(s) => s,
            None => {
                return None;
            },
        };
        let mut msg = SipMessage {
            start,
            lines: Vec::new(),
            body: copy_range(body, 0, body.len()),
        };
        assert(msg.body@ =~= body@);
        assert(msg@.headers =~= Seq::<HeaderModel>::empty());
        let ghost all = scan::lines(head@).drop_first();
        let mut has_current = false;
        let mut name: Vec<char> = Vec::new();
        let mut value: Vec<char> = Vec::new();
        let mut i: usize = 1;
        assert(all.subrange(0, 0) =~= Seq::<Seq<char>>::empty());
        while i < ls.len()
            invariant
                1 <= i <= ls@.len(),
                scan::views(ls@) == scan::lines(head@),
                all == scan::lines(head@).drop_first(),
                msg@.start == start@,
                msg@.body == body@,
                fold_lines(all.subrange(0, i - 1)) == (FoldState {
                    headers: msg@.headers,
                    current: if has_current {
                        Some((name@, value@))
                    } else {
                        None
                    },
                }),
            decreases ls@.len() - i,
        {
            let line = &ls[i];
            proof {
                assert(scan::views(ls@)[i as int] == line@);
                let b = all.subrange(0, i as int);
                assert(b.drop_last() =~= all.subrange(0, i - 1));
                assert(b.last() == line@);
            }
            let ghost f = fold_lines(all.subrange(0, i - 1));
            if line.len() > 0 {
                if line[0] == ' ' || line[0] == '\t' {
                    if has_current {
                        let ghost was = value@;
                        value.push(' ');
                        append_chars(&mut value, trim_chars(line.as_slice()));
                        assert(value@ =~= was.push(' ') + text::trim(line@));
                    }
                } else {
                    if has_current {
                        push_folded(&mut msg, &name, &value);
                    }
                    assert(msg@.headers =~= flushed(f));
                    let k: usize = find_char_from(line.as_slice(), ':', 0);
                    if k < line.len() {
                        let n = trim_chars(slice_subrange(line.as_slice(), 0, k));
                        let v = trim_chars(slice_subrange(line.as_slice(), k + 1, line.len()));
                        name = copy_chars(n, 0, n.len());
                        value = copy_chars(v, 0, v.len());
                        assert(name@ =~= n@);
                        assert(value@ =~= v@);
                        has_current = true;
                    } else {
                        has_current = false;
                    }
                }
            }
            i += 1;
        }
        assert(all.subrange(0, i - 1) =~= all);
        if has_current {
            push_folded(&mut msg, &name, &value);
        }
        assert(msg@.headers =~= flushed(fold_lines(all)));
        let mut limit: Option<u64> = None;
        proof {
            lower_content_length();
        }
        match copy_text(msg.header("content-length")) {
            Some(v) => {
                limit = parse_unsigned(trim_chars(&v), usize::MAX as u64);
            },
            None => {},
        }
        match limit {
            Some(n) => {
                if msg.body.len() as u64 > n {
                    msg.body.truncate(n as usize);
                }
            },
            None => {},
        }
        assert(msg@.body =~= clipped(body@, msg@.headers));
        Some(msg)
    }
}

fn append_chars(out: &mut Vec<char>, more: &[char])
    ensures
        final(out)@ == old(out)@ + more@,
{
    let mut i: usize = 0;
    while i < more.len()
        invariant
            i <= more@.len(),
            out@ == old(out)@ + more@.subrange(0, i as int),
        decreases more@.len() - i,
    {
        out.push(more[i]);
        i += 1;
        assert(out@ =~= old(out)@ + more@.subrange(0, i as int));
    }
    assert(more@.subrange(0, i as int) =~= more@);
}

/// Spelling of a lower-case header name on output: a few names have their own,
/// any other has each hyphenated part capitalised.
pub open spec fn display_name(n: Seq<char>) -> Seq<char> {
    if n == "call-id"@ {
        "Call-ID"@
    } else if n == "cseq"@ {
        "CSeq"@
    } else if n == "www-authenticate"@ {
        "WWW-Authenticate"@
    } else {
        Seq::new(
            n.len(),
            |i: int|
                if i == 0 || n[i - 1] == '-' {
                    upper(n[i])
                } else {
                    n[i]
                },
        )
    }
}

/// Spells a header name for output.
pub fn canonical_header_name(lower: &[char]) -> (r: Vec<char>)
    ensures
        r@ == display_name(lower@),
{
    if spells(lower, "call-id") {
        return chars_of("Call-ID");
    }
    if spells(lower, "cseq") {
        return chars_of("CSeq");
    }
    if spells(lower, "www-authenticate") {
        return chars_of("WWW-Authenticate");
    }
    let ghost want = display_name(lower@);
    let mut out: Vec<char> = Vec::new();
    let mut i: usize = 0;
    while i < lower.len()
        invariant
            i <= lower@.len(),
            want.len() == lower@.len(),
            want == Seq::new(
                lower@.len(),
                |k: int|
                    if k == 0 || lower@[k - 1] == '-' {
                        upper(lower@[k])
                    } else {
                        lower@[k]
                    },
            ),
            out@ == want.subrange(0, i as int),
        decreases lower@.len() - i,
    {
        if i == 0 || lower[i - 1] == '-' {
            out.push(upper_char(lower[i]));
        } else {
            out.push(lower[i]);
        }
        i += 1;
        assert(out@ =~= want.subrange(0, i as int));
    }
    assert(want.subrange(0, i as int) =~= want);
    out
}

/// Text of a start line.
pub open spec fn start_text(s: StartModel) -> Seq<char> {
    match s {
        StartModel::Request { method, uri } => method.name() + " "@ + uri + " SIP/2.0\r\n"@,
        StartModel::Status { code, reason } => "SIP/2.0 "@ + text::decimal(code as nat) + " "@ + reason
            + "\r\n"@,
    }
}

/// Text of header lines.
pub open spec fn headers_text(headers: Seq<HeaderModel>) -> Seq<char>
    decreases headers.len(),
{
    if headers.len() == 0 {
        Seq::empty()
    } else {
        headers_text(headers.drop_last()) + display_name(headers.last().name) + ": "@
            + headers.last().value + "\r\n"@
    }
}

/// The headers that are written as they are: all but the length of the body.
pub open spec fn written_headers(headers: Seq<HeaderModel>) -> Seq<HeaderModel> {
    headers_except(headers, "content-length"@)
}

/// Text of a message up to its body: start line, headers, the length that the body has,
/// and a blank line.
pub open spec fn head_text(m: SipModel) -> Seq<char> {
    start_text(m.start) + headers_text(written_headers(m.headers)) + "Content-Length: "@
        + text::decimal(m.body.len()) + "\r\n"@ + "\r\n"@
}

/// A message on the wire.
pub open spec fn sip_bytes(m: SipModel) -> Seq<u8> {
    vstd::utf8::encode_utf8(head_text(m)) + m.body
}

impl SipMessage {
    /// Serialises the message, with the length that its body has whatever a header says.
    pub fn to_bytes(&self) -> (r: Vec<u8>)
        ensures
            r@ == sip_bytes(self@),
    {
        let mut out = String::new();
        match &self.start {
            StartLine::Request { method, uri } => {
                push_text(&mut out, method.as_str());
                push_text(&mut out, " ");
                push_text(&mut out, uri.as_str());
                push_text(&mut out, " SIP/2.0\r\n");
            },
            StartLine::Status { code, reason } => {
                push_text(&mut out, "SIP/2.0 ");
                push_decimal(&mut out, *code as u64);
                push_text(&mut out, " ");
                push_text(&mut out, reason.as_str());
                push_text(&mut out, "\r\n");
            },
        }
        assert(out@ =~= start_text(self@.start));
        let ghost first = out@;
        let ghost want = |h: HeaderModel| h.name != "content-length"@;
        let mut i: usize = 0;
        assert(self@.headers.subrange(0, 0).filter(want) =~= Seq::<HeaderModel>::empty());
        assert(first + headers_text(self@.headers.subrange(0, 0).filter(want)) =~= first);
        while i < self.lines.len()
            invariant
                i <= self.lines@.len(),
                self@.headers == header_models(self.lines@),
                want == (|h: HeaderModel| h.name != "content-length"@),
                out@ == first + headers_text(self@.headers.subrange(0, i as int).filter(want)),
            decreases self.lines@.len() - i,
        {
            let h = &self.lines[i];
            let ghost a = self@.headers.subrange(0, i as int);
            let ghost b = self@.headers.subrange(0, i + 1);
            proof {
                reveal(Seq::filter);
                assert(b.drop_last() =~= a);
                assert(b.last() == h@);
            }
            let key = chars_of(h.name.as_str());
            if !spells(&key, "content-length") {
                let display = canonical_header_name(&key);
                push_chars(&mut out, &display);
                push_text(&mut out, ": ");
                push_text(&mut out, h.value.as_str());
                push_text(&mut out, "\r\n");
                proof {
                    assert(b.filter(want) =~= a.filter(want).push(h@));
                    assert(b.filter(want).drop_last() =~= a.filter(want));
                    assert(out@ =~= first + headers_text(b.filter(want)));
                }
            }
            i += 1;
        }
        assert(self@.headers.subrange(0, i as int) =~= self@.headers);
        push_text(&mut out, "Content-Length: ");
        push_decimal(&mut out, self.body.len() as u64);
        push_text(&mut out, "\r\n");
        push_text(&mut out, "\r\n");
        assert(out@ =~= head_text(self@));
        let mut bytes = text_bytes(out.as_str());
        crate::bytes::put_bytes(&mut bytes, self.body.as_slice());
        bytes
    }
}

/// The URI of an address header: what stands in angle brackets, or else what
/// stands before the first parameter.
pub open spec fn address_uri(h: Seq<char>) -> Seq<char> {
    let a = text::find_char(h, '<', 0);
    let b = text::find_char(h, '>', 0);
    if a < h.len() && b < h.len() && b > a {
        h.subrange(a + 1, b)
    } else {
        text::trim(h.subrange(0, text::find_char(h, ';', 0)))
    }
}

/// Extracts the URI of an address header.
pub fn extract_uri(header: &str) -> (r: String)
    ensures
        r@ == address_uri(header@),
{
    let h = chars_of(header);
    let a: usize = find_char_from(&h, '<', 0);
    let b: usize = find_char_from(&h, '>', 0);
    if a < h.len() && b < h.len() && b > a {
        return string_of(slice_subrange(&h, a + 1, b));
    }
    let k: usize = find_char_from(&h, ';', 0);
    string_of(trim_chars(slice_subrange(&h, 0, k)))
}

/// A URI without its scheme.
pub open spec fn without_scheme(uri: Seq<char>) -> Seq<char> {
    scan::strip_all(scan::strip_all(uri, "sip:"@), "sips:"@)
}

fn strip_scheme(uri: &str) -> (r: Vec<char>)
    ensures
        r@ == without_scheme(uri@),
{
    let u = chars_of(uri);
    let sip = chars_of("sip:");
    let sips = chars_of("sips:");
    let s = without_prefixes(&u, &sip);
    without_prefixes(&s, &sips)
}

/// The user part of a URI: what stands before the at sign.
pub open spec fn user_part(uri: Seq<char>) -> Option<Seq<char>> {
    let s = without_scheme(uri);
    let k = text::find_char(s, '@', 0);
    if k < s.len() {
        Some(s.subrange(0, k))
    } else {
        None
    }
}

/// Extracts the user part of a URI.
pub fn uri_user(uri: &str) -> (r: Option<String>)
    ensures
        crate::protocol::opt_text(r) == user_part(uri@),
{
    let s = strip_scheme(uri);
    let k: usize = find_char_from(&s, '@', 0);
    if k < s.len() {
        Some(string_of(slice_subrange(&s, 0, k)))
    } else {
        None
    }
}

/// Smaller of two positions.
pub open spec fn sooner(a: int, b: int) -> int {
    if a < b {
        a
    } else {
        b
    }
}

/// Host and port of a URI: what stands after the at sign, if any, and before
/// parameters and headers.
pub open spec fn host_part(uri: Seq<char>) -> Option<Seq<char>> {
    let s = without_scheme(uri);
    let k = text::find_char(s, '@', 0);
    let h = if k < s.len() {
        scan::rest(s, k + 1)
    } else {
        s
    };
    let e = sooner(text::find_char(h, ';', 0), text::find_char(h, '?', 0));
    if e == 0 {
        None
    } else {
        Some(h.subrange(0, e))
    }
}

/// Extracts host and port of a URI.
pub fn uri_host(uri: &str) -> (r: Option<String>)
    ensures
        crate::protocol::opt_text(r) == host_part(uri@),
{
    let s = strip_scheme(uri);
    let k: usize = find_char_from(&s, '@', 0);
    let start: usize = if k < s.len() {
        k + 1
    } else {
        0
    };
    let h = slice_subrange(&s, start, s.len());
    proof {
        if k >= s@.len() {
            assert(h@ =~= s@);
        }
    }
    let a: usize = find_char_from(h, ';', 0);
    let b: usize = find_char_from(h, '?', 0);
    let e: usize = if a < b {
        a
    } else {
        b
    };
    if e == 0 {
        None
    } else {
        Some(string_of(slice_subrange(h, 0, e)))
    }
}

} // verus!

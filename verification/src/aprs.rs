//! Forwarding of positions to APRS-IS: every subscriber is reported as an object of
//! its own under the server's one login.
use crate::calendar;
use crate::calendar::aprs_dhm_timestamp;
use crate::config::AprsConfig;
use crate::table::Table;
use crate::text;
use crate::text::{chars_of, decimal_text, push_text, trim_chars};
use vstd::prelude::*;

verus! {

/// The first characters of a text, filled up with spaces to a width.
pub open spec fn fitted(s: Seq<char>, width: nat) -> Seq<char> {
    Seq::new(
        width,
        |i: int|
            if i < s.len() {
                s[i]
            } else {
                ' '
            },
    )
}

/// The name under which a subscriber is reported: the prefix and the number, cut or
/// filled up with spaces to nine characters.
pub fn object_name(prefix: &str, issi: u32) -> (r: String)
    ensures
        r@ == fitted(prefix@ + text::decimal(issi as nat), 9),
{
    let mut raw = String::new();
    push_text(&mut raw, prefix);
    push_text(&mut raw, &decimal_text(issi as u64));
    let ghost whole = prefix@ + text::decimal(issi as nat);
    assert(raw@ =~= whole);
    let chars = chars_of(&raw);
    let mut name = String::new();
    let mut i: usize = 0;
    while i < 9
        invariant
            i <= 9,
            chars@ == whole,
            name@ == fitted(whole, i as nat),
        decreases 9 - i,
    {
        if i < chars.len() {
            name.push(chars[i]);
        } else {
            name.push(' ');
        }
        i = i + 1;
        assert(name@ =~= fitted(whole, i as nat));
    }
    name
}

/// The report line of an object. `ts` is the time as `DDHHMM`.
pub open spec fn object_line(
    callsign: Seq<char>,
    name: Seq<char>,
    ts: Seq<char>,
    lat: Seq<char>,
    symbol_table: char,
    lon: Seq<char>,
    symbol_code: char,
    comment: Seq<char>,
) -> Seq<char> {
    callsign + ">APRS,TCPIP*:;"@ + name + "*"@ + ts + "z"@ + lat.push(symbol_table) + lon.push(
        symbol_code,
    ) + comment + "\r\n"@
}

/// Builds the report line of a subscriber at a time in seconds since 1970. `lat` and
/// `lon` are the coordinates as `DDMM.mmN` and `DDDMM.mmE`.
pub fn build_object_packet(cfg: &AprsConfig, issi: u32, lat: &str, lon: &str, secs: u64) -> (r:
    String)
    ensures
        r@ == object_line(
            cfg.callsign@,
            fitted(cfg.object_name_prefix@ + text::decimal(issi as nat), 9),
            calendar::day_hour_minute(secs as int),
            lat@,
            cfg.symbol_table,
            lon@,
            cfg.symbol_code,
            cfg.comment@,
        ),
{
    let name = object_name(&cfg.object_name_prefix, issi);
    let ts = aprs_dhm_timestamp(secs);
    let mut out = String::new();
    push_text(&mut out, &cfg.callsign);
    push_text(&mut out, ">APRS,TCPIP*:;");
    push_text(&mut out, &name);
    push_text(&mut out, "*");
    push_text(&mut out, &ts);
    push_text(&mut out, "z");
    push_text(&mut out, lat);
    out.push(cfg.symbol_table);
    push_text(&mut out, lon);
    out.push(cfg.symbol_code);
    push_text(&mut out, &cfg.comment);
    push_text(&mut out, "\r\n");
    assert(out@ =~= object_line(
        cfg.callsign@,
        name@,
        ts@,
        lat@,
        cfg.symbol_table,
        lon@,
        cfg.symbol_code,
        cfg.comment@,
    ));
    out
}

/// The line that logs a server in.
pub open spec fn login(callsign: Seq<char>, passcode: Seq<char>) -> Seq<char> {
    "user "@ + callsign + " pass "@ + passcode + " vers brew-server 1.2\r\n"@
}

/// Builds the line that logs this server in.
pub fn login_line(cfg: &AprsConfig) -> (r: String)
    ensures
        r@ == login(cfg.callsign@, cfg.passcode@),
{
    let mut out = String::new();
    push_text(&mut out, "user ");
    push_text(&mut out, &cfg.callsign);
    push_text(&mut out, " pass ");
    push_text(&mut out, &cfg.passcode);
    push_text(&mut out, " vers brew-server 1.2\r\n");
    assert(out@ =~= login(cfg.callsign@, cfg.passcode@));
    out
}

/// What the forwarder does with positions.
#[derive(Debug, Clone, Copy, PartialEq, Eq, Structural)]
pub enum Forwarding {
    /// Switched off: positions are dropped.
    Disabled,
    /// Switched on without a login: positions are dropped.
    NoLogin,
    Active,
}

/// Decides whether positions are forwarded.
pub fn forwarding(cfg: &AprsConfig) -> (r: Forwarding)
    ensures
        r == (if !cfg.enabled {
            Forwarding::Disabled
        } else if text::trim(cfg.callsign@).len() == 0 || text::trim(cfg.passcode@).len() == 0 {
            Forwarding::NoLogin
        } else {
            Forwarding::Active
        }),
{
    if !cfg.enabled {
        return Forwarding::Disabled;
    }
    let callsign = chars_of(&cfg.callsign);
    let passcode = chars_of(&cfg.passcode);
    if trim_chars(&callsign).len() == 0 || trim_chars(&passcode).len() == 0 {
        Forwarding::NoLogin
    } else {
        Forwarding::Active
    }
}

/// When each subscriber was last reported, in nanoseconds of a steady clock.
pub struct Limiter {
    pub last_sent: Table<u32, u64>,
}

impl View for Limiter {
    type V = Map<u32, u64>;

    open spec fn view(&self) -> Map<u32, u64> {
        self.last_sent@
    }
}

/// Whether a report of a subscriber may be sent: none was sent in the last `interval`
/// seconds, or there is no limit.
pub open spec fn may_send(sent: Map<u32, u64>, issi: u32, now: u64, interval: u64) -> bool {
    interval == 0 || !sent.dom().contains(issi) || now - sent[issi] >= interval * 1_000_000_000
}

impl Limiter {
    pub fn new() -> (r: Self)
        ensures
            r@ == Map::<u32, u64>::empty(),
    {
        Limiter { last_sent: Table::new() }
    }

    /// Whether a report may be sent now.
    pub fn admits(&self, issi: u32, now: u64, interval: u64) -> (r: bool)
        ensures
            r == may_send(self@, issi, now, interval),
    {
        if interval == 0 {
            return true;
        }
        match self.last_sent.get(&issi) {
            Some(last) => {
                let elapsed: u64 = if now >= *last {
                    now - *last
                } else {
                    0
                };
                elapsed as u128 >= interval as u128 * 1_000_000_000
            },
            None => true,
        }
    }

    /// Notes that a report was sent.
    pub fn sent(&mut self, issi: u32, now: u64)
        ensures
            final(self)@ == old(self)@.insert(issi, now),
    {
        let _ = self.last_sent.insert(issi, now);
    }
}

/// A subscriber that was reported is not reported again before the interval is over,
/// is reported again from then on, and no other subscriber is held up by it.
pub proof fn reports_are_spaced(
    sent: Map<u32, u64>,
    issi: u32,
    now: u64,
    later: u64,
    interval: u64,
)
    requires
        now <= later,
    ensures
        interval > 0 ==> (may_send(sent.insert(issi, now), issi, later, interval) <==> later - now
            >= interval * 1_000_000_000),
        forall|other: u32|
            other != issi ==> #[trigger] may_send(sent.insert(issi, now), other, later, interval)
                == may_send(sent, other, later, interval),
{
}

/// An object name has nine characters and starts with as much of the prefix as fits.
pub proof fn object_names_have_nine_characters(prefix: Seq<char>, issi: u32)
    ensures
        ({
            let name = fitted(prefix + text::decimal(issi as nat), 9);
            &&& name.len() == 9
            &&& forall|i: int| 0 <= i < 9 && i < prefix.len() ==> name[i] == prefix[i]
        }),
{
}

/// An object is named by the prefix and the number of the subscriber, one behind the
/// other, cut at nine characters or filled up with blanks to nine.
pub proof fn object_names_tell_the_subscriber(prefix: Seq<char>, issi: u32, i: int)
    requires
        0 <= i < 9,
    ensures
        ({
            let name = fitted(prefix + text::decimal(issi as nat), 9);
            let digits = text::decimal(issi as nat);
            &&& i < prefix.len() ==> name[i] == prefix[i]
            &&& prefix.len() <= i < prefix.len() + digits.len() ==> name[i] == digits[i
                - prefix.len()]
            &&& i >= prefix.len() + digits.len() ==> name[i] == ' '
        }),
{
}

/// The fields of a report stand in their order: who sends it, the object's name, the time,
/// the latitude with the symbol table behind it, the longitude with the symbol behind it,
/// and the comment.
pub proof fn report_fields_stand_in_order(
    callsign: Seq<char>,
    name: Seq<char>,
    ts: Seq<char>,
    lat: Seq<char>,
    table: char,
    lon: Seq<char>,
    code: char,
    comment: Seq<char>,
)
    requires
        name.len() == 9,
        ts.len() == 6,
        lat.len() == 8,
        lon.len() == 9,
    ensures
        ({
            let l = object_line(callsign, name, ts, lat, table, lon, code, comment);
            let at = callsign.len() as int + 14;
            &&& l.len() == at + 38 + comment.len()
            &&& l.subrange(0, callsign.len() as int) == callsign
            &&& l[at - 1] == ';'
            &&& l.subrange(at, at + 9) == name
            &&& l[at + 9] == '*'
            &&& l.subrange(at + 10, at + 16) == ts
            &&& l[at + 16] == 'z'
            &&& l.subrange(at + 17, at + 25) == lat
            &&& l[at + 25] == table
            &&& l.subrange(at + 26, at + 35) == lon
            &&& l[at + 35] == code
            &&& l.subrange(at + 36, at + 36 + comment.len()) == comment
            &&& l[l.len() - 2] == '\r' && l.last() == '\n'
        }),
{
    reveal_strlit(">APRS,TCPIP*:;");
    reveal_strlit("*");
    reveal_strlit("z");
    reveal_strlit("\r\n");
    let l = object_line(callsign, name, ts, lat, table, lon, code, comment);
    let at = callsign.len() as int + 14;
    assert(l.subrange(0, callsign.len() as int) =~= callsign);
    assert(l.subrange(at, at + 9) =~= name);
    assert(l.subrange(at + 10, at + 16) =~= ts);
    assert(l.subrange(at + 17, at + 25) =~= lat);
    assert(l.subrange(at + 26, at + 35) =~= lon);
    assert(l.subrange(at + 36, at + 36 + comment.len()) =~= comment);
}

/// A subscriber that was never reported may be reported at once, and without an interval
/// every report may be sent.
pub proof fn first_reports_are_not_held_up(sent: Map<u32, u64>, issi: u32, now: u64, interval: u64)
    ensures
        !sent.dom().contains(issi) ==> may_send(sent, issi, now, interval),
        may_send(sent, issi, now, 0),
{
}

/// A server logs in with its own call sign and passcode, in one line.
pub proof fn logins_name_the_server(callsign: Seq<char>, passcode: Seq<char>)
    ensures
        ({
            let l = login(callsign, passcode);
            let n = callsign.len() as int;
            &&& l.subrange(0, 5) == "user "@
            &&& l.subrange(5, 5 + n) == callsign
            &&& l.subrange(5 + n, 11 + n) == " pass "@
            &&& l.subrange(11 + n, 11 + n + passcode.len()) == passcode
            &&& l.last() == '\n'
        }),
{
    reveal_strlit("user ");
    reveal_strlit(" pass ");
    reveal_strlit(" vers brew-server 1.2\r\n");
    let l = login(callsign, passcode);
    let n = callsign.len() as int;
    assert(l.subrange(0, 5) =~= "user "@);
    assert(l.subrange(5, 5 + n) =~= callsign);
    assert(l.subrange(5 + n, 11 + n) =~= " pass "@);
    assert(l.subrange(11 + n, 11 + n + passcode.len()) =~= passcode);
}

} // verus!

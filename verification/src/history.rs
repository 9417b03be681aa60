//! The reader of the history log: its command line, the text of a record, and the
//! count of records.
use crate::calendar;
use crate::calendar::fmt_ts;
use crate::ids;
use crate::ids::{id_text, Id};
use crate::store;
use crate::store::{RecordModel, StoredRecord};
use crate::text;
use crate::text::{chars_of, push_chars, push_decimal, push_text, same_text};
use vstd::prelude::*;
use vstd::slice::slice_subrange;

verus! {

/// What the command line asks for.
#[derive(Debug)]
pub enum Request {
    /// Print the log at a path.
    Show { path: String, json: bool },
    /// Print how the program is called.
    Help,
    /// No path was given.
    NoPath,
    /// A second path was given.
    Unexpected(String),
}

#[verifier::ext_equal]
pub enum RequestModel {
    Show(Seq<char>, bool),
    Help,
    NoPath,
    Unexpected(Seq<char>),
}

impl View for Request {
    type V = RequestModel;

    open spec fn view(&self) -> RequestModel {
        match self {
            Request::Show { path, json } => RequestModel::Show(path@, *json),
            Request::Help => RequestModel::Help,
            Request::NoPath => RequestModel::NoPath,
            Request::Unexpected(a) => RequestModel::Unexpected(a@),
        }
    }
}

pub open spec fn arg_views(v: Seq<String>) -> Seq<Seq<char>> {
    Seq::new(v.len(), |i: int| v[i]@)
}

/// What arguments from `i` on ask for, after a path and the wish for JSON were or were
/// not read.
pub open spec fn requested(
    args: Seq<Seq<char>>,
    i: int,
    path: Option<Seq<char>>,
    json: bool,
) -> RequestModel
    decreases args.len() - i,
{
    if i >= args.len() {
        match path {
            Some(p) => RequestModel::Show(p, json),
            None => RequestModel::NoPath,
        }
    } else if args[i] == "--json"@ || args[i] == "-j"@ {
        requested(args, i + 1, path, true)
    } else if args[i] == "--help"@ || args[i] == "-h"@ {
        RequestModel::Help
    } else if path is None {
        requested(args, i + 1, Some(args[i]), json)
    } else {
        RequestModel::Unexpected(args[i])
    }
}

/// Reads the arguments of the command line.
pub fn read_args(args: &[String]) -> (r: Request)
    ensures
        r@ == requested(arg_views(args@), 0, None, false),
{
    let mut path: Option<String> = None;
    let mut json = false;
    let mut i: usize = 0;
    while i < args.len()
        invariant
            i <= args@.len(),
            requested(arg_views(args@), 0, None, false) == requested(
                arg_views(args@),
                i as int,
                match path {
                    Some(p) => Some(p@),
                    None => None,
                },
                json,
            ),
        decreases args.len() - i,
    {
        let a = args[i].as_str();
        assert(arg_views(args@)[i as int] == a@);
        if same_text(a, "--json") || same_text(a, "-j") {
            json = true;
        } else if same_text(a, "--help") || same_text(a, "-h") {
            return Request::Help;
        } else if path.is_none() {
            path = Some(args[i].clone());
        } else {
            return Request::Unexpected(args[i].clone());
        }
        i = i + 1;
    }
    match path {
        Some(path) => Request::Show { path, json },
        None => Request::NoPath,
    }
}

/// The first eight digits of an identifier.
pub open spec fn short_id(id: Id) -> Seq<char> {
    ids::hex_text(ids::id_bytes(id)).subrange(0, 8)
}

/// The first eight hexadecimal digits of an identifier.
pub fn short(id: Id) -> (r: String)
    ensures
        r@ == short_id(id),
{
    let all = chars_of(&id_text(id));
    proof {
        ids::id_round_trip(id);
        ids::hex_text_length(ids::id_bytes(id));
    }
    let mut out = String::new();
    push_chars(&mut out, slice_subrange(&all, 0, 8));
    assert(out@ =~= short_id(id));
    out
}

/// A text filled up with spaces on the right to seven characters.
pub open spec fn column(s: Seq<char>) -> Seq<char> {
    if s.len() < 7 {
        s + Seq::new((7 - s.len()) as nat, |i: int| ' ')
    } else {
        s
    }
}

/// How long a call took, in seconds.
pub open spec fn duration(started: u64, ended: Option<u64>) -> Seq<char> {
    match ended {
        Some(e) => text::decimal(
            (if e >= started {
                (e - started) / 1000
            } else {
                0
            }) as nat,
        ).push('s'),
        None => "-"@,
    }
}

/// A record as a line of text.
pub open spec fn line(rec: RecordModel) -> Option<Seq<char>> {
    match rec {
        RecordModel::Call(c) => Some(
            calendar::moment_text(c.started_at_ms as int / 1000) + "  CALL   "@ + column(c.kind).push(
                ' ',
            ) + text::decimal(c.source as nat) + " -> "@ + text::decimal(c.destination as nat)
                + " pri "@ + text::decimal(c.priority as nat).push(' ') + duration(
                c.started_at_ms,
                c.ended_at_ms,
            ) + " frames "@ + text::decimal(c.voice_frames as nat) + " ["@ + short_id(c.uuid).push(
                ']',
            ),
        ),
        RecordModel::Sds(s) => Some(
            calendar::moment_text(s.at_ms as int / 1000) + "  SDS    "@ + text::decimal(
                s.source as nat,
            ) + " -> "@ + text::decimal(s.destination as nat) + " reports "@ + text::decimal(
                s.reports as nat,
            ) + " ["@ + short_id(s.uuid).push(']'),
        ),
        RecordModel::SdsReport(uuid) => Some(
            Seq::new(19, |i: int| ' ') + "  REPORT for ["@ + short_id(uuid).push(']'),
        ),
        RecordModel::SdsTelemetry(_) => None,
    }
}

fn push_spaces(out: &mut String, n: usize)
    ensures
        final(out)@ == old(out)@ + Seq::new(n as nat, |i: int| ' '),
{
    let ghost start = out@;
    let mut k: usize = 0;
    while k < n
        invariant
            k <= n,
            out@ == start + Seq::new(k as nat, |i: int| ' '),
        decreases n - k,
    {
        out.push(' ');
        k = k + 1;
        assert(out@ =~= start + Seq::new(k as nat, |i: int| ' '));
    }
}

fn push_column(out: &mut String, s: &str)
    ensures
        final(out)@ == old(out)@ + column(s@),
{
    let n: usize = chars_of(s).len();
    push_text(out, s);
    if n < 7 {
        push_spaces(out, 7 - n);
    }
    assert(out@ =~= old(out)@ + column(s@));
}

fn push_duration(out: &mut String, started: u64, ended: Option<u64>)
    ensures
        final(out)@ == old(out)@ + duration(started, ended),
{
    match ended {
        Some(e) => {
            let ms: u64 = if e >= started {
                e - started
            } else {
                0
            };
            push_decimal(out, ms / 1000);
            out.push('s');
        },
        None => {
            push_text(out, "-");
        },
    }
    assert(out@ =~= old(out)@ + duration(started, ended));
}

/// The text of a record. The reader has none for what a base station told of.
pub fn print_text(rec: &StoredRecord) -> (r: Option<String>)
    ensures
        (match r {
            Some(s) => Some(s@),
            None => None,
        }) == line(rec@),
{
    let mut out = String::new();
    match rec {
        StoredRecord::Call(c) => {
            push_text(&mut out, &fmt_ts(c.started_at_ms));
            push_text(&mut out, "  CALL   ");
            push_column(&mut out, &c.kind);
            out.push(' ');
            push_decimal(&mut out, c.source as u64);
            push_text(&mut out, " -> ");
            push_decimal(&mut out, c.destination as u64);
            push_text(&mut out, " pri ");
            push_decimal(&mut out, c.priority as u64);
            out.push(' ');
            push_duration(&mut out, c.started_at_ms, c.ended_at_ms);
            push_text(&mut out, " frames ");
            push_decimal(&mut out, c.voice_frames);
            push_text(&mut out, " [");
            push_text(&mut out, &short(c.uuid));
            out.push(']');
            assert(out@ =~= line(rec@)->0);
        },
        StoredRecord::Sds(s) => {
            push_text(&mut out, &fmt_ts(s.at_ms));
            push_text(&mut out, "  SDS    ");
            push_decimal(&mut out, s.source as u64);
            push_text(&mut out, " -> ");
            push_decimal(&mut out, s.destination as u64);
            push_text(&mut out, " reports ");
            push_decimal(&mut out, s.reports as u64);
            push_text(&mut out, " [");
            push_text(&mut out, &short(s.uuid));
            out.push(']');
            assert(out@ =~= line(rec@)->0);
        },
        StoredRecord::SdsReport { uuid } => {
            push_spaces(&mut out, 19);
            push_text(&mut out, "  REPORT for [");
            push_text(&mut out, &short(*uuid));
            out.push(']');
            assert(out@ =~= line(rec@)->0);
        },
        StoredRecord::SdsTelemetry(_) => {
            return None;
        },
    }
    Some(out)
}

/// How many records of each kind there are.
#[derive(Debug, Clone, Copy, PartialEq, Eq, Structural)]
pub struct Counts {
    pub records: usize,
    pub calls: usize,
    pub sds: usize,
    pub reports: usize,
}

/// The records of each kind.
pub open spec fn calls_of(recs: Seq<RecordModel>) -> Seq<RecordModel> {
    recs.filter(|r: RecordModel| r is Call)
}

pub open spec fn messages_of(recs: Seq<RecordModel>) -> Seq<RecordModel> {
    recs.filter(|r: RecordModel| r is Sds)
}

pub open spec fn reports_of(recs: Seq<RecordModel>) -> Seq<RecordModel> {
    recs.filter(|r: RecordModel| r is SdsReport)
}

pub open spec fn telemetry_of(recs: Seq<RecordModel>) -> Seq<RecordModel> {
    recs.filter(|r: RecordModel| r is SdsTelemetry)
}

/// Counts all records, and those of each kind that has a text.
pub fn count(recs: &[StoredRecord]) -> (r: Counts)
    ensures
        r.records == recs@.len(),
        r.calls == calls_of(store::record_models(recs@)).len(),
        r.sds == messages_of(store::record_models(recs@)).len(),
        r.reports == reports_of(store::record_models(recs@)).len(),
{
    let ghost all = store::record_models(recs@);
    let mut c = Counts { records: recs.len(), calls: 0, sds: 0, reports: 0 };
    let mut i: usize = 0;
    proof {
        reveal(Seq::filter);
    }
    while i < recs.len()
        invariant
            i <= recs@.len(),
            all == store::record_models(recs@),
            c.records == recs@.len(),
            c.calls == calls_of(all.subrange(0, i as int)).len(),
            c.sds == messages_of(all.subrange(0, i as int)).len(),
            c.reports == reports_of(all.subrange(0, i as int)).len(),
        decreases recs.len() - i,
    {
        proof {
            reveal(Seq::filter);
            counts_add_up(all.subrange(0, i as int));
            assert(all.subrange(0, i + 1).drop_last() =~= all.subrange(0, i as int));
            assert(all.subrange(0, i + 1).last() == recs@[i as int]@);
        }
        match &recs[i] {
            StoredRecord::Call(_) => {
                c = Counts { calls: c.calls + 1, ..c };
            },
            StoredRecord::Sds(_) => {
                c = Counts { sds: c.sds + 1, ..c };
            },
            StoredRecord::SdsReport { .. } => {
                c = Counts { reports: c.reports + 1, ..c };
            },
            StoredRecord::SdsTelemetry(_) => {},
        }
        i = i + 1;
    }
    assert(all.subrange(0, i as int) =~= all);
    c
}

/// The line that sums the records up.
pub open spec fn summary_line(c: Counts) -> Seq<char> {
    "\n"@ + text::decimal(c.records as nat) + " record(s): "@ + text::decimal(c.calls as nat)
        + " call(s), "@ + text::decimal(c.sds as nat) + " SDS, "@ + text::decimal(c.reports as nat)
        + " SDS report(s)"@
}

/// The line that sums the records up.
pub fn summary(c: Counts) -> (r: String)
    ensures
        r@ == summary_line(c),
{
    let mut out = String::new();
    push_text(&mut out, "\n");
    push_decimal(&mut out, c.records as u64);
    push_text(&mut out, " record(s): ");
    push_decimal(&mut out, c.calls as u64);
    push_text(&mut out, " call(s), ");
    push_decimal(&mut out, c.sds as u64);
    push_text(&mut out, " SDS, ");
    push_decimal(&mut out, c.reports as u64);
    push_text(&mut out, " SDS report(s)");
    assert(out@ =~= summary_line(c));
    out
}

/// Every record is of one kind, so that the records of the kinds add up to all of them.
pub proof fn counts_add_up(recs: Seq<RecordModel>)
    ensures
        calls_of(recs).len() + messages_of(recs).len() + reports_of(recs).len() + telemetry_of(
            recs,
        ).len() == recs.len(),
    decreases recs.len(),
{
    reveal(Seq::filter);
    if recs.len() > 0 {
        counts_add_up(recs.drop_last());
    }
}

/// A path alone asks for its records as text; with `--json` or `-j`, before it or behind,
/// for JSON; `--help` or `-h` asks for help; without a path, or with a second one, the
/// request is refused.
pub proof fn requests_are_understood(path: Seq<char>, second: Seq<char>, opt: Seq<char>)
    requires
        path != "--json"@ && path != "-j"@ && path != "--help"@ && path != "-h"@,
        second != "--json"@ && second != "-j"@ && second != "--help"@ && second != "-h"@,
        opt == "--json"@ || opt == "-j"@,
    ensures
        requested(seq![path], 0, None, false) == RequestModel::Show(path, false),
        requested(seq![path, opt], 0, None, false) == RequestModel::Show(path, true),
        requested(seq![opt, path], 0, None, false) == RequestModel::Show(path, true),
        requested(seq![], 0, None, false) == RequestModel::NoPath,
        requested(seq![opt], 0, None, false) == RequestModel::NoPath,
        requested(seq![path, second], 0, None, false) == RequestModel::Unexpected(second),
        requested(seq!["--help"@], 0, None, false) == RequestModel::Help,
        requested(seq!["-h"@], 0, None, false) == RequestModel::Help,
        requested(seq![path, "--help"@], 0, None, false) == RequestModel::Help,
{
    reveal_strlit("--json");
    reveal_strlit("-j");
    reveal_strlit("--help");
    reveal_strlit("-h");
    assert("--help"@.len() == 6 && "--json"@.len() == 6);
    assert("--help"@[2] == 'h' && "--json"@[2] == 'j');
    assert("-h"@[1] == 'h' && "-j"@[1] == 'j');
    reveal_with_fuel(requested, 3);
}

/// A call that has ended took the whole seconds from its start to its end, and one that
/// has not ended has no length.
pub proof fn durations_are_whole_seconds(started: u64, seconds: u64, over: u64)
    requires
        started + 1000 * seconds + over <= u64::MAX,
        over < 1000,
    ensures
        duration(started, Some((started + 1000 * seconds + over) as u64)) == text::decimal(
            seconds as nat,
        ) + seq!['s'],
        duration(started, None) == "-"@,
{
    assert((1000 * seconds + over) / 1000 == seconds);
    assert(duration(started, Some((started + 1000 * seconds + over) as u64)) =~= text::decimal(
        seconds as nat,
    ) + seq!['s']);
}

/// A record is short for its identifier's first eight hexadecimal digits.
pub proof fn short_names_start_the_identifier(id: Id)
    ensures
        short_id(id).len() == 8,
        forall|i: int|
            0 <= i < 8 ==> #[trigger] short_id(id)[i] == ids::hex_text(ids::id_bytes(id))[i],
{
    ids::id_round_trip(id);
    ids::hex_text_length(ids::id_bytes(id));
}

} // verus!

//! The log of registrations: who registered, deregistered or timed out, as the stations
//! tell of it and as terminals do it directly. The last events of each source are kept.
use crate::table::Table;
use crate::telemetry::TelemetryEvent;
use vstd::prelude::*;

verus! {

/// Events that are kept of a source.
pub const REG_LOG_LIMIT: usize = 50;

/// Source of the events of terminals that are connected directly.
pub const BREW_SOURCE: &'static str = "brew";

/// What happened to a registration.
#[derive(Debug, Clone, Copy, PartialEq, Eq, Structural)]
pub enum RegKind {
    Register,
    Deregister,
    Timeout,
}

impl RegKind {
    pub fn as_str(self) -> (r: &'static str)
        ensures
            r@ == (match self {
                RegKind::Register => "register"@,
                RegKind::Deregister => "deregister"@,
                RegKind::Timeout => "timeout"@,
            }),
    {
        match self {
            RegKind::Register => "register",
            RegKind::Deregister => "deregister",
            RegKind::Timeout => "timeout",
        }
    }
}

/// An event of a source.
#[derive(Debug, Clone, Copy, PartialEq, Eq, Structural)]
pub struct RegEvent {
    pub at_ms: u64,
    pub issi: u32,
    pub kind: RegKind,
}

/// An event as the log shows it.
#[derive(Debug)]
pub struct RegLogRow {
    pub at_ms: u64,
    pub bts: String,
    pub issi: u32,
    pub kind: RegKind,
}

#[verifier::ext_equal]
pub struct RegRowModel {
    pub at_ms: u64,
    pub bts: Seq<char>,
    pub issi: u32,
    pub kind: RegKind,
}

impl View for RegLogRow {
    type V = RegRowModel;

    open spec fn view(&self) -> RegRowModel {
        RegRowModel { at_ms: self.at_ms, bts: self.bts@, issi: self.issi, kind: self.kind }
    }
}

/// The last events of each source, the newest first.
#[derive(Debug)]
pub struct RegistrationLog {
    pub sources: Table<String, Vec<RegEvent>>,
}

impl View for RegistrationLog {
    type V = Map<Seq<char>, Seq<RegEvent>>;

    open spec fn view(&self) -> Map<Seq<char>, Seq<RegEvent>> {
        self.sources@
    }
}

/// The events of a source.
pub open spec fn events_of(m: Map<Seq<char>, Seq<RegEvent>>, source: Seq<char>) -> Seq<RegEvent> {
    if m.dom().contains(source) {
        m[source]
    } else {
        Seq::empty()
    }
}

/// A list with an event put in front and what is over the limit dropped.
pub open spec fn noted(list: Seq<RegEvent>, e: RegEvent) -> Seq<RegEvent> {
    let longer = seq![e] + list;
    if longer.len() > REG_LOG_LIMIT {
        longer.subrange(0, REG_LOG_LIMIT as int)
    } else {
        longer
    }
}

/// What a telemetry event says of a registration.
pub open spec fn registration_in(e: TelemetryEvent) -> Option<(u32, RegKind)> {
    match e {
        TelemetryEvent::MsRegistration { issi } => Some((issi, RegKind::Register)),
        TelemetryEvent::MsDeregistration { issi } => Some((issi, RegKind::Deregister)),
        TelemetryEvent::MsTimeoutDrop { issi } => Some((issi, RegKind::Timeout)),
        _ => None,
    }
}

/// The rows of a source.
pub open spec fn rows_of(source: Seq<char>, list: Seq<RegEvent>) -> Seq<RegRowModel> {
    Seq::new(
        list.len(),
        |i: int|
            RegRowModel { at_ms: list[i].at_ms, bts: source, issi: list[i].issi, kind: list[i].kind },
    )
}

/// The rows of all sources.
pub open spec fn all_rows(entries: Seq<(Seq<char>, Seq<RegEvent>)>) -> Seq<RegRowModel>
    decreases entries.len(),
{
    if entries.len() == 0 {
        Seq::empty()
    } else {
        all_rows(entries.drop_last()) + rows_of(entries.last().0, entries.last().1)
    }
}

pub open spec fn row_models(v: Seq<RegLogRow>) -> Seq<RegRowModel> {
    Seq::new(v.len(), |i: int| v[i]@)
}

/// Whether rows start with what happened last.
pub open spec fn newest_on_top(rows: Seq<RegRowModel>) -> bool {
    forall|i: int, j: int|
        0 <= i <= j < rows.len() ==> (#[trigger] rows[i]).at_ms >= (#[trigger] rows[j]).at_ms
}

fn insert_row(out: &mut Vec<RegLogRow>, row: RegLogRow)
    requires
        newest_on_top(row_models(old(out)@)),
    ensures
        newest_on_top(row_models(final(out)@)),
        row_models(final(out)@).to_multiset() == row_models(old(out)@).to_multiset().insert(row@),
{
    let ghost before = row_models(out@);
    let at: u64 = row.at_ms;
    let mut p: usize = 0;
    while p < out.len() && out[p].at_ms >= at
        invariant
            p <= out@.len(),
            before == row_models(out@),
            forall|j: int| 0 <= j < p ==> (#[trigger] before[j]).at_ms >= at,
        decreases out@.len() - p,
    {
        assert(before[p as int] == out@[p as int]@);
        p = p + 1;
    }
    proof {
        if p < out@.len() {
            assert(before[p as int] == out@[p as int]@);
        }
    }
    let ghost m = row@;
    out.insert(p, row);
    proof {
        let after = row_models(out@);
        assert(after =~= before.insert(p as int, m));
        vstd::seq_lib::to_multiset_insert(before, p as int, m);
        assert forall|a: int, b: int| 0 <= a <= b < after.len() implies (
        #[trigger] after[a]).at_ms >= (#[trigger] after[b]).at_ms by {
            if a < p && b > p {
                assert(before[a].at_ms >= before[b - 1].at_ms);
            } else if b < p {
                assert(before[a].at_ms >= before[b].at_ms);
            } else if a > p {
                assert(before[a - 1].at_ms >= before[b - 1].at_ms);
            } else if a == p && b > p {
                assert(before[p as int].at_ms < at);
                assert(before[p as int].at_ms >= before[b - 1].at_ms);
            } else if a < p && b == p {
                assert(before[a].at_ms >= at);
            }
        }
    }
}

impl RegistrationLog {
    pub fn new() -> (r: Self)
        ensures
            r@ == Map::<Seq<char>, Seq<RegEvent>>::empty(),
    {
        RegistrationLog { sources: Table::new() }
    }

    /// Notes an event of a source.
    pub fn note(&mut self, source: &str, issi: u32, kind: RegKind, now: u64)
        ensures
            final(self)@ == old(self)@.insert(
                source@,
                noted(events_of(old(self)@, source@), RegEvent { at_ms: now, issi, kind }),
            ),
    {
        let key = source.to_owned();
        let mut list: Vec<RegEvent> = match self.sources.remove(&key) {
            Some(l) => l,
            None => Vec::new(),
        };
        assert(list@ =~= events_of(old(self)@, source@));
        let ghost before = list@;
        let e = RegEvent { at_ms: now, issi, kind };
        list.insert(0, e);
        assert(list@ =~= seq![e] + before);
        if list.len() > REG_LOG_LIMIT {
            list.truncate(REG_LOG_LIMIT);
        }
        assert(list@ =~= noted(before, e));
        let _ = self.sources.insert(key, list);
        assert(self@ =~= old(self)@.insert(source@, noted(before, e)));
    }

    /// Notes what a telemetry event of a station says of a registration.
    pub fn note_event(&mut self, station: &str, event: &TelemetryEvent, now: u64)
        ensures
            final(self)@ == (match registration_in(*event) {
                Some((issi, kind)) => old(self)@.insert(
                    station@,
                    noted(events_of(old(self)@, station@), RegEvent { at_ms: now, issi, kind }),
                ),
                None => old(self)@,
            }),
    {
        match event {
            TelemetryEvent::MsRegistration { issi } => {
                self.note(station, *issi, RegKind::Register, now);
            },
            TelemetryEvent::MsDeregistration { issi } => {
                self.note(station, *issi, RegKind::Deregister, now);
            },
            TelemetryEvent::MsTimeoutDrop { issi } => {
                self.note(station, *issi, RegKind::Timeout, now);
            },
            _ => {},
        }
    }

    /// Forgets a source, as when a station disconnects.
    pub fn forget(&mut self, source: &str)
        ensures
            final(self)@ == old(self)@.remove(source@),
    {
        let _ = self.sources.remove(&source.to_owned());
    }

    /// All events, the newest first.
    pub fn registration_log(&self) -> (r: Vec<RegLogRow>)
        ensures
            row_models(r@).to_multiset() == all_rows(self.sources.entries()).to_multiset(),
            newest_on_top(row_models(r@)),
    {
        let n: usize = self.sources.len();
        let ghost entries = self.sources.entries();
        let mut out: Vec<RegLogRow> = Vec::new();
        let mut i: usize = 0;
        assert(row_models(out@) =~= all_rows(entries.take(0)));
        while i < n
            invariant
                n == entries.len(),
                entries == self.sources.entries(),
                i <= n,
                newest_on_top(row_models(out@)),
                row_models(out@).to_multiset() == all_rows(entries.take(i as int)).to_multiset(),
            decreases n - i,
        {
            let (source, list) = self.sources.entry(i);
            let ghost start = all_rows(entries.take(i as int));
            let ghost rows = rows_of(source@, list@);
            let mut j: usize = 0;
            assert(start + rows.take(0) =~= start);
            while j < list.len()
                invariant
                    j <= list@.len(),
                    rows == rows_of(source@, list@),
                    newest_on_top(row_models(out@)),
                    row_models(out@).to_multiset() == (start + rows.take(j as int)).to_multiset(),
                decreases list@.len() - j,
            {
                let e: RegEvent = list[j];
                let row = RegLogRow {
                    at_ms: e.at_ms,
                    bts: source.clone(),
                    issi: e.issi,
                    kind: e.kind,
                };
                assert(row@ == rows[j as int]);
                proof {
                    vstd::seq_lib::to_multiset_build(start + rows.take(j as int), row@);
                    assert((start + rows.take(j as int)).push(row@) =~= start + rows.take(j + 1));
                }
                insert_row(&mut out, row);
                j = j + 1;
            }
            proof {
                assert(rows.take(j as int) =~= rows);
                let t = entries.take(i + 1);
                assert(t.drop_last() =~= entries.take(i as int));
                assert(t.last() == entries[i as int]);
            }
            i = i + 1;
        }
        assert(entries.take(i as int) =~= entries);
        out
    }
}

/// The log of a source holds its last events and no more: the newest comes first, the
/// others keep their order, and other sources are not touched.
pub proof fn each_source_keeps_its_last_events(
    m: Map<Seq<char>, Seq<RegEvent>>,
    source: Seq<char>,
    other: Seq<char>,
    e: RegEvent,
)
    requires
        other != source,
        events_of(m, source).len() <= REG_LOG_LIMIT,
    ensures
        ({
            let after = m.insert(source, noted(events_of(m, source), e));
            let list = events_of(after, source);
            &&& list.len() <= REG_LOG_LIMIT
            &&& list[0] == e
            &&& forall|i: int| 0 < i < list.len() ==> list[i] == events_of(m, source)[i - 1]
            &&& events_of(m, source).len() < REG_LOG_LIMIT ==> list.len() == events_of(
                m,
                source,
            ).len() + 1
            &&& events_of(after, other) == events_of(m, other)
        }),
{
}

/// What a station tells of a subscriber is logged as what it was: coming, going, or being
/// lost. No other event is logged.
pub proof fn comings_and_goings_are_logged(e: TelemetryEvent)
    ensures
        e matches TelemetryEvent::MsRegistration { issi } ==> registration_in(e) == Some(
            (issi, RegKind::Register),
        ),
        e matches TelemetryEvent::MsDeregistration { issi } ==> registration_in(e) == Some(
            (issi, RegKind::Deregister),
        ),
        e matches TelemetryEvent::MsTimeoutDrop { issi } ==> registration_in(e) == Some(
            (issi, RegKind::Timeout),
        ),
        !(e is MsRegistration) && !(e is MsDeregistration) && !(e is MsTimeoutDrop)
            ==> registration_in(e) is None,
{
}

/// The rows of a source are its events, in their order, under its name; the rows of
/// several sources are those of each, and nothing else.
pub proof fn rows_show_every_event(
    entries: Seq<(Seq<char>, Seq<RegEvent>)>,
    i: int,
    j: int,
)
    requires
        0 <= i < entries.len(),
        0 <= j < entries[i].1.len(),
    ensures
        exists|k: int|
            0 <= k < all_rows(entries).len() && (#[trigger] all_rows(entries)[k]) == (RegRowModel {
                at_ms: entries[i].1[j].at_ms,
                bts: entries[i].0,
                issi: entries[i].1[j].issi,
                kind: entries[i].1[j].kind,
            }),
    decreases entries.len(),
{
    let init = entries.drop_last();
    let last = entries.last();
    let row = RegRowModel {
        at_ms: entries[i].1[j].at_ms,
        bts: entries[i].0,
        issi: entries[i].1[j].issi,
        kind: entries[i].1[j].kind,
    };
    if i < entries.len() - 1 {
        rows_show_every_event(init, i, j);
        let k = choose|k: int| 0 <= k < all_rows(init).len() && (#[trigger] all_rows(init)[k]) == row;
        assert(all_rows(entries)[k] == row);
    } else {
        let k = all_rows(init).len() + j;
        assert(all_rows(entries)[k] == row);
    }
}

/// A log that is shown starts with what happened last: no row is newer than one above it.
pub proof fn newest_events_are_on_top(rows: Seq<RegRowModel>, i: int, j: int)
    requires
        newest_on_top(rows),
        0 <= i <= j < rows.len(),
    ensures
        rows[j].at_ms <= rows[i].at_ms,
        rows[j].at_ms <= rows[0].at_ms,
{
}

} // verus!

//! The call and message history: active calls, recent calls and messages, and totals,
//! with what of it goes into the log and comes back from it.
use crate::ids::Id;
use crate::store;
use crate::store::{RecordModel, StoredRecord};
use crate::table::Table;
use std::collections::VecDeque;
use vstd::prelude::*;

verus! {

/// Entries that are kept of calls and of messages.
pub const HISTORY_LIMIT: usize = 200;

/// Entries of each that a snapshot shows.
pub const SNAPSHOT_LIMIT: usize = 50;

/// A call.
#[derive(Debug)]
pub struct CallRecord {
    pub uuid: Id,
    pub kind: String,
    pub source: u32,
    pub destination: u32,
    pub priority: u8,
    pub started_at_ms: u64,
    pub ended_at_ms: Option<u64>,
    pub voice_frames: u64,
}

#[verifier::ext_equal]
pub struct CallRecordModel {
    pub uuid: Id,
    pub kind: Seq<char>,
    pub source: u32,
    pub destination: u32,
    pub priority: u8,
    pub started_at_ms: u64,
    pub ended_at_ms: Option<u64>,
    pub voice_frames: u64,
}

impl View for CallRecord {
    type V = CallRecordModel;

    open spec fn view(&self) -> CallRecordModel {
        CallRecordModel {
            uuid: self.uuid,
            kind: self.kind@,
            source: self.source,
            destination: self.destination,
            priority: self.priority,
            started_at_ms: self.started_at_ms,
            ended_at_ms: self.ended_at_ms,
            voice_frames: self.voice_frames,
        }
    }
}

impl Clone for CallRecord {
    fn clone(&self) -> (r: Self)
        ensures
            r@ == self@,
    {
        CallRecord {
            uuid: self.uuid,
            kind: self.kind.clone(),
            source: self.source,
            destination: self.destination,
            priority: self.priority,
            started_at_ms: self.started_at_ms,
            ended_at_ms: self.ended_at_ms,
            voice_frames: self.voice_frames,
        }
    }
}

/// A short data message.
#[derive(Debug, Clone, Copy, PartialEq, Eq, Structural)]
pub struct SdsRecord {
    pub uuid: Id,
    pub source: u32,
    pub destination: u32,
    pub at_ms: u64,
    pub reports: u32,
}

/// The history, the newest entry of each list first.
pub struct Monitor {
    pub active: Table<Id, CallRecord>,
    pub calls: VecDeque<CallRecord>,
    pub sds: VecDeque<SdsRecord>,
    pub total_calls: u64,
    pub total_sds: u64,
    pub voice_frames: u64,
}

#[verifier::ext_equal]
pub struct History {
    pub active: Map<Id, CallRecordModel>,
    pub calls: Seq<CallRecordModel>,
    pub sds: Seq<SdsRecord>,
    pub total_calls: u64,
    pub total_sds: u64,
    pub voice_frames: u64,
}

pub open spec fn call_models(v: Seq<CallRecord>) -> Seq<CallRecordModel> {
    Seq::new(v.len(), |i: int| v[i]@)
}

impl View for Monitor {
    type V = History;

    open spec fn view(&self) -> History {
        History {
            active: self.active@,
            calls: call_models(self.calls@),
            sds: self.sds@,
            total_calls: self.total_calls,
            total_sds: self.total_sds,
            voice_frames: self.voice_frames,
        }
    }
}

/// A list with an entry put in front and what is over the limit dropped.
pub open spec fn noted<A>(list: Seq<A>, a: A) -> Seq<A> {
    let longer = seq![a] + list;
    if longer.len() > HISTORY_LIMIT {
        longer.subrange(0, HISTORY_LIMIT as int)
    } else {
        longer
    }
}

/// The list with one more report on the newest message of an identifier.
pub open spec fn reported(list: Seq<SdsRecord>, uuid: Id) -> Seq<SdsRecord>
    decreases list.len(),
{
    if list.len() == 0 {
        list
    } else if list[0].uuid == uuid {
        list.update(0, SdsRecord { reports: list[0].reports.wrapping_add(1), ..list[0] })
    } else {
        seq![list[0]] + reported(list.subrange(1, list.len() as int), uuid)
    }
}

pub open spec fn empty_history() -> History {
    History {
        active: Map::empty(),
        calls: seq![],
        sds: seq![],
        total_calls: 0,
        total_sds: 0,
        voice_frames: 0,
    }
}

/// What a record of the log adds to the history.
pub open spec fn restored(h: History, rec: RecordModel) -> History {
    match rec {
        RecordModel::Call(c) => History {
            calls: noted(h.calls, c),
            total_calls: h.total_calls.wrapping_add(1),
            voice_frames: h.voice_frames.wrapping_add(c.voice_frames),
            ..h
        },
        RecordModel::Sds(s) => History {
            sds: noted(h.sds, s),
            total_sds: h.total_sds.wrapping_add(1),
            ..h
        },
        RecordModel::SdsReport(uuid) => History { sds: reported(h.sds, uuid), ..h },
        RecordModel::SdsTelemetry(_) => h,
    }
}

/// The history that a log holds.
pub open spec fn replayed(log: Seq<RecordModel>) -> History
    decreases log.len(),
{
    if log.len() == 0 {
        empty_history()
    } else {
        restored(replayed(log.drop_last()), log.last())
    }
}

/// What a monitor is told.
#[verifier::ext_equal]
pub enum Happening {
    CallStarted {
        uuid: Id,
        kind: Seq<char>,
        source: u32,
        destination: u32,
        priority: u8,
        now: u64,
    },
    CallEnded { uuid: Id, now: u64 },
    VoiceFrame { uuid: Id },
    Sds { uuid: Id, source: u32, destination: u32, now: u64 },
    SdsReport { uuid: Id },
}

pub open spec fn with_started(
    h: History,
    uuid: Id,
    kind: Seq<char>,
    source: u32,
    destination: u32,
    priority: u8,
    now: u64,
) -> History {
    History {
        active: h.active.insert(
            uuid,
            CallRecordModel {
                uuid,
                kind,
                source,
                destination,
                priority,
                started_at_ms: now,
                ended_at_ms: None,
                voice_frames: 0,
            },
        ),
        total_calls: if h.active.dom().contains(uuid) {
            h.total_calls
        } else {
            h.total_calls.wrapping_add(1)
        },
        ..h
    }
}

/// An active call as it is when it ends.
pub open spec fn ended(c: CallRecordModel, now: u64) -> CallRecordModel {
    CallRecordModel { ended_at_ms: Some(now), ..c }
}

pub open spec fn with_ended(h: History, uuid: Id, now: u64) -> History {
    if h.active.dom().contains(uuid) {
        History {
            active: h.active.remove(uuid),
            calls: noted(h.calls, ended(h.active[uuid], now)),
            ..h
        }
    } else {
        h
    }
}

pub open spec fn with_voice(h: History, uuid: Id) -> History {
    History {
        voice_frames: h.voice_frames.wrapping_add(1),
        active: if h.active.dom().contains(uuid) {
            let c = h.active[uuid];
            h.active.insert(
                uuid,
                CallRecordModel { voice_frames: c.voice_frames.wrapping_add(1), ..c },
            )
        } else {
            h.active
        },
        ..h
    }
}

pub open spec fn new_sds(uuid: Id, source: u32, destination: u32, now: u64) -> SdsRecord {
    SdsRecord { uuid, source, destination, at_ms: now, reports: 0 }
}

pub open spec fn with_sds(h: History, s: SdsRecord) -> History {
    History { sds: noted(h.sds, s), total_sds: h.total_sds.wrapping_add(1), ..h }
}

/// The history after a happening.
pub open spec fn after(h: History, e: Happening) -> History {
    match e {
        Happening::CallStarted { uuid, kind, source, destination, priority, now } => with_started(
            h,
            uuid,
            kind,
            source,
            destination,
            priority,
            now,
        ),
        Happening::CallEnded { uuid, now } => with_ended(h, uuid, now),
        Happening::VoiceFrame { uuid } => with_voice(h, uuid),
        Happening::Sds { uuid, source, destination, now } => with_sds(
            h,
            new_sds(uuid, source, destination, now),
        ),
        Happening::SdsReport { uuid } => History { sds: reported(h.sds, uuid), ..h },
    }
}

/// What a happening puts into the log.
pub open spec fn logged(h: History, e: Happening) -> Option<RecordModel> {
    match e {
        Happening::CallEnded { uuid, now } => if h.active.dom().contains(uuid) {
            Some(RecordModel::Call(ended(h.active[uuid], now)))
        } else {
            None
        },
        Happening::Sds { uuid, source, destination, now } => Some(
            RecordModel::Sds(new_sds(uuid, source, destination, now)),
        ),
        Happening::SdsReport { uuid } => Some(RecordModel::SdsReport(uuid)),
        _ => None,
    }
}

proof fn reported_at(list: Seq<SdsRecord>, uuid: Id, k: int)
    requires
        0 <= k <= list.len(),
        forall|j: int| 0 <= j < k ==> (#[trigger] list[j]).uuid != uuid,
        k < list.len() ==> list[k].uuid == uuid,
    ensures
        reported(list, uuid) == (if k < list.len() {
            list.update(k, SdsRecord { reports: list[k].reports.wrapping_add(1), ..list[k] })
        } else {
            list
        }),
    decreases list.len(),
{
    if list.len() > 0 && k > 0 {
        let tail = list.subrange(1, list.len() as int);
        assert forall|j: int| 0 <= j < k - 1 implies (#[trigger] tail[j]).uuid != uuid by {
            assert(tail[j] == list[j + 1]);
        }
        reported_at(tail, uuid, k - 1);
        assert(reported(list, uuid) =~= (if k < list.len() {
            list.update(k, SdsRecord { reports: list[k].reports.wrapping_add(1), ..list[k] })
        } else {
            list
        }));
    }
}

/// What a dashboard shows of the history.
#[derive(Debug)]
pub struct Snapshot {
    pub connected_bluestations: usize,
    pub subscribers: usize,
    pub groups: usize,
    pub active_calls: Vec<CallRecord>,
    pub recent_calls: Vec<CallRecord>,
    pub recent_sds: Vec<SdsRecord>,
    pub total_calls: u64,
    pub total_sds: u64,
    pub voice_frames: u64,
}

/// The first entries of a list, as many as a snapshot shows.
pub open spec fn shown<A>(list: Seq<A>) -> Seq<A> {
    if list.len() > SNAPSHOT_LIMIT {
        list.subrange(0, SNAPSHOT_LIMIT as int)
    } else {
        list
    }
}

impl Monitor {
    pub fn new() -> (r: Self)
        ensures
            r@ == empty_history(),
    {
        let r = Monitor {
            active: Table::new(),
            calls: VecDeque::new(),
            sds: VecDeque::new(),
            total_calls: 0,
            total_sds: 0,
            voice_frames: 0,
        };
        assert(r@ =~= empty_history());
        r
    }

    fn note_call(&mut self, c: CallRecord)
        ensures
            final(self)@ == (History { calls: noted(old(self)@.calls, c@), ..old(self)@ }),
    {
        let ghost before = self@;
        let ghost m = c@;
        self.calls.push_front(c);
        assert(call_models(self.calls@) =~= seq![m] + before.calls);
        if self.calls.len() > HISTORY_LIMIT {
            self.calls.truncate(HISTORY_LIMIT);
        }
        assert(call_models(self.calls@) =~= noted(before.calls, m));
    }

    fn note_sds(&mut self, s: SdsRecord)
        ensures
            final(self)@ == (History { sds: noted(old(self)@.sds, s), ..old(self)@ }),
    {
        self.sds.push_front(s);
        if self.sds.len() > HISTORY_LIMIT {
            self.sds.truncate(HISTORY_LIMIT);
        }
    }

    fn note_report(&mut self, uuid: Id)
        ensures
            final(self)@ == (History { sds: reported(old(self)@.sds, uuid), ..old(self)@ }),
    {
        let n: usize = self.sds.len();
        let mut k: usize = 0;
        while k < n && self.sds[k].uuid != uuid
            invariant
                n == self.sds@.len(),
                k <= n,
                forall|j: int| 0 <= j < k ==> (#[trigger] self.sds@[j]).uuid != uuid,
            decreases n - k,
        {
            k = k + 1;
        }
        proof {
            reported_at(self.sds@, uuid, k as int);
        }
        if k < n {
            let ghost list = self.sds@;
            if let Some(s) = self.sds.remove(k) {
                let more = SdsRecord { reports: s.reports.wrapping_add(1), ..s };
                self.sds.insert(k, more);
                assert(self.sds@ =~= list.update(k as int, more));
            }
        }
    }

    /// Adds a record of the log to the history.
    pub fn restore(&mut self, rec: StoredRecord)
        ensures
            final(self)@ == restored(old(self)@, rec@),
    {
        match rec {
            StoredRecord::Call(c) => {
                self.total_calls = self.total_calls.wrapping_add(1);
                self.voice_frames = self.voice_frames.wrapping_add(c.voice_frames);
                self.note_call(c);
            },
            StoredRecord::Sds(s) => {
                self.total_sds = self.total_sds.wrapping_add(1);
                self.note_sds(s);
            },
            StoredRecord::SdsReport { uuid } => {
                self.note_report(uuid);
            },
            StoredRecord::SdsTelemetry(_) => {},
        }
    }

    /// The history that a log holds.
    pub fn with_store(records: Vec<StoredRecord>) -> (r: Self)
        ensures
            r@ == replayed(store::record_models(records@)),
    {
        let ghost log = store::record_models(records@);
        let mut left = records;
        let mut r = Monitor::new();
        let ghost mut done: int = 0;
        while left.len() > 0
            invariant
                0 <= done <= log.len(),
                store::record_models(left@) == log.subrange(done, log.len() as int),
                r@ == replayed(log.subrange(0, done)),
            decreases left.len(),
        {
            let ghost rest = store::record_models(left@);
            assert(rest.len() == log.len() - done);
            let rec = left.remove(0);
            assert(rec@ == rest[0]);
            assert(store::record_models(left@) =~= rest.subrange(1, rest.len() as int));
            assert(store::record_models(left@) =~= log.subrange(
                done + 1,
                log.len() as int,
            ));
            assert(log.subrange(0, done + 1).drop_last() =~= log.subrange(0, done));
            assert(log.subrange(0, done + 1).last() == rec@);
            r.restore(rec);
            proof {
                done = done + 1;
            }
        }
        proof {
            assert(store::record_models(left@).len() == 0);
            assert(log.subrange(0, done) =~= log);
        }
        r
    }

    /// Notes that a call started, and hands out its record.
    pub fn call_started(
        &mut self,
        uuid: Id,
        kind: &str,
        source: u32,
        destination: u32,
        priority: u8,
        now: u64,
    ) -> (r: CallRecord)
        ensures
            final(self)@ == with_started(
                old(self)@,
                uuid,
                kind@,
                source,
                destination,
                priority,
                now,
            ),
            r@ == final(self)@.active[uuid],
    {
        let rec = CallRecord {
            uuid,
            kind: kind.to_owned(),
            source,
            destination,
            priority,
            started_at_ms: now,
            ended_at_ms: None,
            voice_frames: 0,
        };
        let copy = rec.clone();
        if self.active.insert(uuid, rec).is_none() {
            self.total_calls = self.total_calls.wrapping_add(1);
        }
        copy
    }

    /// Notes that a call ended, and hands out what goes into the log.
    pub fn call_ended(&mut self, uuid: Id, now: u64) -> (r: Option<CallRecord>)
        ensures
            final(self)@ == with_ended(old(self)@, uuid, now),
            (match r {
                Some(c) => Some(RecordModel::Call(c@)),
                None => None,
            }) == logged(old(self)@, Happening::CallEnded { uuid, now }),
    {
        match self.active.remove(&uuid) {
            Some(c) => {
                let done = CallRecord { ended_at_ms: Some(now), ..c };
                let copy = done.clone();
                self.note_call(done);
                Some(copy)
            },
            None => {
                assert(self@.active =~= old(self)@.active);
                None
            },
        }
    }

    /// Notes a frame of voice.
    pub fn voice_frame(&mut self, uuid: Id)
        ensures
            final(self)@ == with_voice(old(self)@, uuid),
    {
        self.voice_frames = self.voice_frames.wrapping_add(1);
        match self.active.remove(&uuid) {
            Some(c) => {
                let more = CallRecord { voice_frames: c.voice_frames.wrapping_add(1), ..c };
                let _ = self.active.insert(uuid, more);
                assert(self@.active =~= with_voice(old(self)@, uuid).active);
            },
            None => {
                assert(self@.active =~= old(self)@.active);
            },
        }
    }

    /// Notes a short data message, and hands out what goes into the log.
    pub fn sds(&mut self, uuid: Id, source: u32, destination: u32, now: u64) -> (r: SdsRecord)
        ensures
            final(self)@ == with_sds(old(self)@, new_sds(uuid, source, destination, now)),
            r == new_sds(uuid, source, destination, now),
    {
        let s = SdsRecord { uuid, source, destination, at_ms: now, reports: 0 };
        self.total_sds = self.total_sds.wrapping_add(1);
        self.note_sds(s);
        s
    }

    /// Notes a delivery report. The report goes into the log as it is.
    pub fn sds_report(&mut self, uuid: Id)
        ensures
            final(self)@ == (History { sds: reported(old(self)@.sds, uuid), ..old(self)@ }),
    {
        self.note_report(uuid);
    }

    /// What a dashboard shows: every active call, and the newest calls and messages.
    pub fn snapshot(&self, clients: usize, subscribers: usize, groups: usize) -> (r: Snapshot)
        ensures
            r.connected_bluestations == clients,
            r.subscribers == subscribers,
            r.groups == groups,
            call_models(r.active_calls@) == Seq::new(
                self.active.entries().len(),
                |i: int| self.active.entries()[i].1,
            ),
            call_models(r.recent_calls@) == shown(self@.calls),
            r.recent_sds@ == shown(self@.sds),
            r.total_calls == self@.total_calls,
            r.total_sds == self@.total_sds,
            r.voice_frames == self@.voice_frames,
    {
        let mut active_calls: Vec<CallRecord> = Vec::new();
        let n: usize = self.active.len();
        let mut i: usize = 0;
        while i < n
            invariant
                n == self.active.entries().len(),
                i <= n,
                active_calls@.len() == i,
                forall|j: int|
                    0 <= j < i ==> (#[trigger] active_calls@[j])@ == self.active.entries()[j].1,
            decreases n - i,
        {
            let (_, c) = self.active.entry(i);
            active_calls.push(c.clone());
            i = i + 1;
        }
        let mut recent_calls: Vec<CallRecord> = Vec::new();
        let n: usize = self.calls.len();
        let mut i: usize = 0;
        while i < n && i < SNAPSHOT_LIMIT
            invariant
                n == self.calls@.len(),
                i <= n,
                i <= SNAPSHOT_LIMIT,
                recent_calls@.len() == i,
                forall|j: int|
                    0 <= j < i ==> (#[trigger] recent_calls@[j])@ == self.calls@[j]@,
            decreases n - i,
        {
            recent_calls.push(self.calls[i].clone());
            i = i + 1;
        }
        let mut recent_sds: Vec<SdsRecord> = Vec::new();
        let n: usize = self.sds.len();
        let mut i: usize = 0;
        while i < n && i < SNAPSHOT_LIMIT
            invariant
                n == self.sds@.len(),
                i <= n,
                i <= SNAPSHOT_LIMIT,
                recent_sds@.len() == i,
                forall|j: int| 0 <= j < i ==> #[trigger] recent_sds@[j] == self.sds@[j],
            decreases n - i,
        {
            recent_sds.push(self.sds[i]);
            i = i + 1;
        }
        assert(recent_sds@ =~= shown(self@.sds));
        assert(call_models(recent_calls@) =~= shown(self@.calls));
        Snapshot {
            connected_bluestations: clients,
            subscribers,
            groups,
            active_calls,
            recent_calls,
            recent_sds,
            total_calls: self.total_calls,
            total_sds: self.total_sds,
            voice_frames: self.voice_frames,
        }
    }
}

/// The history and the log after a run of happenings, from an empty start.
pub open spec fn lived(run: Seq<Happening>) -> (History, Seq<RecordModel>)
    decreases run.len(),
{
    if run.len() == 0 {
        (empty_history(), seq![])
    } else {
        let (h, log) = lived(run.drop_last());
        (
            after(h, run.last()),
            match logged(h, run.last()) {
                Some(rec) => log.push(rec),
                None => log,
            },
        )
    }
}

/// Whether a history read from the log stands for the one that wrote it: the same
/// recent calls and messages and the same number of messages, and all calls counted
/// but those that had not ended.
pub open spec fn survives(h: History, m: History) -> bool {
    &&& m.calls == h.calls
    &&& m.sds == h.sds
    &&& m.total_sds == h.total_sds
    &&& m.active == Map::<Id, CallRecordModel>::empty()
    &&& h.active.dom().finite()
    &&& h.total_calls == (m.total_calls + h.active.dom().len()) % 0x1_0000_0000_0000_0000
}

/// One happening keeps the log in step with the history.
pub proof fn log_keeps_step(h: History, m: History, e: Happening)
    requires
        survives(h, m),
    ensures
        survives(
            after(h, e),
            match logged(h, e) {
                Some(rec) => restored(m, rec),
                None => m,
            },
        ),
{
    match e {
        Happening::CallStarted { uuid, .. } => {
            if h.active.dom().contains(uuid) {
                assert(after(h, e).active.dom() =~= h.active.dom());
            } else {
                assert(after(h, e).active.dom() =~= h.active.dom().insert(uuid));
            }
        },
        Happening::CallEnded { uuid, .. } => {
            if h.active.dom().contains(uuid) {
                assert(after(h, e).active.dom() =~= h.active.dom().remove(uuid));
            }
        },
        Happening::VoiceFrame { uuid } => {
            assert(after(h, e).active.dom() =~= h.active.dom());
        },
        _ => {},
    }
}

/// The history survives a restart: whatever happened, a monitor that replays the log
/// has the same recent calls and messages and the same totals, less the calls that
/// were still active.
pub proof fn history_survives_restart(run: Seq<Happening>)
    ensures
        survives(lived(run).0, replayed(lived(run).1)),
    decreases run.len(),
{
    if run.len() > 0 {
        let init = run.drop_last();
        history_survives_restart(init);
        let (h, log) = lived(init);
        log_keeps_step(h, replayed(log), run.last());
        match logged(h, run.last()) {
            Some(rec) => {
                assert(log.push(rec).drop_last() =~= log);
            },
            None => {},
        }
    }
}

/// However much happens, no list outgrows its limit.
pub proof fn lists_stay_bounded(run: Seq<Happening>)
    ensures
        lived(run).0.calls.len() <= HISTORY_LIMIT,
        lived(run).0.sds.len() <= HISTORY_LIMIT,
    decreases run.len(),
{
    if run.len() > 0 {
        lists_stay_bounded(run.drop_last());
        reports_keep_length(lived(run.drop_last()).0.sds, match run.last() {
            Happening::SdsReport { uuid } => uuid,
            _ => 0,
        });
    }
}

proof fn reports_keep_length(list: Seq<SdsRecord>, uuid: Id)
    ensures
        reported(list, uuid).len() == list.len(),
    decreases list.len(),
{
    if list.len() > 0 {
        reports_keep_length(list.subrange(1, list.len() as int), uuid);
    }
}

/// A call that starts is active, and one that ends is the newest of the recent calls, as
/// it was when it started and with the time of its end. It is counted once.
pub proof fn calls_are_recorded(
    h: History,
    uuid: Id,
    kind: Seq<char>,
    source: u32,
    destination: u32,
    priority: u8,
    start: u64,
    end: u64,
)
    ensures
        ({
            let begun = after(
                h,
                Happening::CallStarted { uuid, kind, source, destination, priority, now: start },
            );
            let over = after(begun, Happening::CallEnded { uuid, now: end });
            let c = over.calls[0];
            &&& begun.active.dom() == h.active.dom().insert(uuid)
            &&& begun.calls == h.calls
            &&& !h.active.dom().contains(uuid) ==> begun.total_calls == (h.total_calls + 1)
                % 0x1_0000_0000_0000_0000
            &&& h.active.dom().contains(uuid) ==> begun.total_calls == h.total_calls
            &&& over.total_calls == begun.total_calls
            &&& over.active == h.active.remove(uuid)
            &&& over.calls.len() > 0
            &&& c.uuid == uuid && c.kind == kind && c.source == source && c.destination
                == destination && c.priority == priority && c.started_at_ms == start
                && c.ended_at_ms == Some(end) && c.voice_frames == 0
            &&& forall|i: int|
                0 < i < over.calls.len() ==> #[trigger] over.calls[i] == h.calls[i - 1]
            &&& over.calls.len() == (if h.calls.len() < 200 {
                h.calls.len() + 1
            } else {
                200
            })
            &&& over.sds == h.sds
            &&& after(over, Happening::CallEnded { uuid, now: end }) == over
        }),
{
    let begun = after(
        h,
        Happening::CallStarted { uuid, kind, source, destination, priority, now: start },
    );
    let over = after(begun, Happening::CallEnded { uuid, now: end });
    assert(begun.active.dom() =~= h.active.dom().insert(uuid));
    assert(over.active =~= h.active.remove(uuid));
}

/// A voice frame counts for its call, if that is active, and for all calls together, and
/// for nothing else.
pub proof fn voice_frames_are_counted(h: History, uuid: Id)
    ensures
        ({
            let a = after(h, Happening::VoiceFrame { uuid });
            &&& a.voice_frames == (h.voice_frames + 1) % 0x1_0000_0000_0000_0000
            &&& a.active.dom() == h.active.dom()
            &&& h.active.dom().contains(uuid) ==> a.active[uuid] == (CallRecordModel {
                voice_frames: a.active[uuid].voice_frames,
                ..h.active[uuid]
            }) && a.active[uuid].voice_frames == (h.active[uuid].voice_frames + 1)
                % 0x1_0000_0000_0000_0000
            &&& forall|other: Id|
                other != uuid && #[trigger] h.active.dom().contains(other) ==> a.active[other]
                    == h.active[other]
            &&& a == (History { voice_frames: a.voice_frames, active: a.active, ..h })
        }),
{
    assert(after(h, Happening::VoiceFrame { uuid }).active.dom() =~= h.active.dom());
}

/// A message is the newest of the recent messages, without reports yet, and is counted.
/// A report counts for the newest message of its identifier and for no other.
pub proof fn messages_and_reports_are_recorded(
    h: History,
    uuid: Id,
    source: u32,
    destination: u32,
    now: u64,
    i: int,
)
    requires
        0 <= i < h.sds.len(),
        forall|j: int| 0 <= j < i ==> (#[trigger] h.sds[j]).uuid != h.sds[i].uuid,
    ensures
        ({
            let a = after(h, Happening::Sds { uuid, source, destination, now });
            &&& a.total_sds == (h.total_sds + 1) % 0x1_0000_0000_0000_0000
            &&& a.sds[0] == (SdsRecord { uuid, source, destination, at_ms: now, reports: 0 })
            &&& forall|k: int| 0 < k < a.sds.len() ==> #[trigger] a.sds[k] == h.sds[k - 1]
            &&& a.sds.len() == (if h.sds.len() < 200 {
                h.sds.len() + 1
            } else {
                200
            })
            &&& a == (History { sds: a.sds, total_sds: a.total_sds, ..h })
        }),
        ({
            let r = after(h, Happening::SdsReport { uuid: h.sds[i].uuid });
            &&& r.sds.len() == h.sds.len()
            &&& r.sds[i] == (SdsRecord { reports: r.sds[i].reports, ..h.sds[i] })
            &&& r.sds[i].reports == h.sds[i].reports.wrapping_add(1)
            &&& forall|k: int| 0 <= k < h.sds.len() && k != i ==> #[trigger] r.sds[k] == h.sds[k]
            &&& r == (History { sds: r.sds, ..h })
        }),
{
    report_lands(h.sds, i);
}

proof fn report_lands(list: Seq<SdsRecord>, i: int)
    requires
        0 <= i < list.len(),
        forall|j: int| 0 <= j < i ==> (#[trigger] list[j]).uuid != list[i].uuid,
    ensures
        ({
            let r = reported(list, list[i].uuid);
            &&& r.len() == list.len()
            &&& r[i] == (SdsRecord { reports: list[i].reports.wrapping_add(1), ..list[i] })
            &&& forall|k: int| 0 <= k < list.len() && k != i ==> #[trigger] r[k] == list[k]
        }),
    decreases list.len(),
{
    if i > 0 {
        let rest = list.subrange(1, list.len() as int);
        assert(list[0].uuid != list[i].uuid);
        assert(rest[i - 1] == list[i]);
        assert forall|j: int| 0 <= j < i - 1 implies (#[trigger] rest[j]).uuid != rest[i - 1].uuid by {
            assert(rest[j] == list[j + 1]);
        }
        report_lands(rest, i - 1);
        let tail = reported(rest, rest[i - 1].uuid);
        let r = reported(list, list[i].uuid);
        assert(r == seq![list[0]] + tail);
        assert forall|k: int| 0 <= k < list.len() && k != i implies #[trigger] r[k] == list[k] by {
            if k > 0 {
                assert(r[k] == tail[k - 1]);
                assert(rest[k - 1] == list[k]);
            }
        }
    }
}

/// A report on a message that is not among the recent ones changes nothing.
pub proof fn stray_reports_change_nothing(h: History, uuid: Id)
    requires
        forall|j: int| 0 <= j < h.sds.len() ==> (#[trigger] h.sds[j]).uuid != uuid,
    ensures
        after(h, Happening::SdsReport { uuid }) == h,
{
    no_report_lands(h.sds, uuid);
}

proof fn no_report_lands(list: Seq<SdsRecord>, uuid: Id)
    requires
        forall|j: int| 0 <= j < list.len() ==> (#[trigger] list[j]).uuid != uuid,
    ensures
        reported(list, uuid) == list,
    decreases list.len(),
{
    if list.len() > 0 {
        let rest = list.subrange(1, list.len() as int);
        assert forall|j: int| 0 <= j < rest.len() implies (#[trigger] rest[j]).uuid != uuid by {
            assert(rest[j] == list[j + 1]);
        }
        assert(list[0].uuid != uuid);
        no_report_lands(rest, uuid);
        assert(seq![list[0]] + rest =~= list);
    }
}

/// A snapshot shows the newest fifty entries of a list, or all of a shorter one.
pub proof fn snapshots_show_the_newest<A>(list: Seq<A>)
    ensures
        shown(list).len() == (if list.len() < 50 {
            list.len()
        } else {
            50
        }),
        forall|i: int| 0 <= i < shown(list).len() ==> #[trigger] shown(list)[i] == list[i],
{
}

} // verus!

//! The messages that stations told of, as the history keeps them: they outlast the
//! connections of the stations and the server itself.
use crate::store;
use crate::store::{RecordModel, StoredRecord};
use crate::table::Table;
use crate::telemetry;
use crate::telemetry::{
    SdsLogEntry, SdsLogModel, SdsTelemetryModel, SdsTelemetryRecord, SDS_LOG_LIMIT,
};
use vstd::prelude::*;

verus! {

/// The last messages of a station, the newest first.
#[derive(Debug)]
pub struct SdsList {
    pub entries: Vec<SdsLogEntry>,
}

impl View for SdsList {
    type V = Seq<SdsLogModel>;

    open spec fn view(&self) -> Seq<SdsLogModel> {
        telemetry::list_models(self.entries@)
    }
}

/// The last messages of every station.
#[derive(Debug)]
pub struct SdsLog {
    pub stations: Table<String, SdsList>,
}

impl View for SdsLog {
    type V = Map<Seq<char>, Seq<SdsLogModel>>;

    open spec fn view(&self) -> Map<Seq<char>, Seq<SdsLogModel>> {
        self.stations@
    }
}

/// The messages of a station.
pub open spec fn messages_of(m: Map<Seq<char>, Seq<SdsLogModel>>, bts: Seq<char>) -> Seq<
    SdsLogModel,
> {
    if m.dom().contains(bts) {
        m[bts]
    } else {
        Seq::empty()
    }
}

/// The log with one more message.
pub open spec fn with_message(m: Map<Seq<char>, Seq<SdsLogModel>>, r: SdsTelemetryModel) -> Map<
    Seq<char>,
    Seq<SdsLogModel>,
> {
    m.insert(r.bts, telemetry::logged(messages_of(m, r.bts), r.entry))
}

/// What a record of the history adds to the log.
pub open spec fn with_record(m: Map<Seq<char>, Seq<SdsLogModel>>, rec: RecordModel) -> Map<
    Seq<char>,
    Seq<SdsLogModel>,
> {
    match rec {
        RecordModel::SdsTelemetry(r) => with_message(m, r),
        _ => m,
    }
}

/// The log that a history holds.
pub open spec fn told(history: Seq<RecordModel>) -> Map<Seq<char>, Seq<SdsLogModel>>
    decreases history.len(),
{
    if history.len() == 0 {
        Map::empty()
    } else {
        with_record(told(history.drop_last()), history.last())
    }
}

impl SdsLog {
    pub fn new() -> (r: Self)
        ensures
            r@ == Map::<Seq<char>, Seq<SdsLogModel>>::empty(),
    {
        SdsLog { stations: Table::new() }
    }

    /// Notes a message of a station, and hands out its record for the history.
    pub fn note(&mut self, bts: &str, entry: SdsLogEntry) -> (r: SdsTelemetryRecord)
        ensures
            r@ == (SdsTelemetryModel { bts: bts@, entry: entry@ }),
            final(self)@ == with_message(old(self)@, r@),
    {
        let r = SdsTelemetryRecord { bts: bts.to_owned(), entry };
        self.put(&r);
        r
    }

    fn put(&mut self, r: &SdsTelemetryRecord)
        ensures
            final(self)@ == with_message(old(self)@, r@),
    {
        let mut list: Vec<SdsLogEntry> = match self.stations.remove(&r.bts) {
            Some(l) => l.entries,
            None => Vec::new(),
        };
        let ghost before = telemetry::list_models(list@);
        assert(before =~= messages_of(old(self)@, r@.bts));
        list.insert(0, r.entry.clone());
        assert(telemetry::list_models(list@) =~= seq![r@.entry] + before);
        if list.len() > SDS_LOG_LIMIT {
            list.truncate(SDS_LOG_LIMIT);
        }
        assert(telemetry::list_models(list@) =~= telemetry::logged(before, r@.entry));
        let _ = self.stations.insert(r.bts.clone(), SdsList { entries: list });
        assert(self@ =~= with_message(old(self)@, r@));
    }

    /// The log that a history holds.
    pub fn with_store(records: &[StoredRecord]) -> (r: Self)
        ensures
            r@ == told(store::record_models(records@)),
    {
        let ghost history = store::record_models(records@);
        let mut log = SdsLog::new();
        let mut i: usize = 0;
        while i < records.len()
            invariant
                i <= records@.len(),
                history == store::record_models(records@),
                log@ == told(history.take(i as int)),
            decreases records@.len() - i,
        {
            proof {
                let t = history.take(i + 1);
                assert(t.drop_last() =~= history.take(i as int));
                assert(t.last() == records@[i as int]@);
            }
            match &records[i] {
                StoredRecord::SdsTelemetry(r) => {
                    log.put(r);
                },
                _ => {},
            }
            i = i + 1;
        }
        assert(history.take(i as int) =~= history);
        log
    }

    /// What is remembered of a station, the newest first.
    pub fn recent(&self, bts: &str) -> (r: Vec<SdsLogEntry>)
        ensures
            telemetry::list_models(r@) == messages_of(self@, bts@),
    {
        let mut out: Vec<SdsLogEntry> = Vec::new();
        match self.stations.get(&bts.to_owned()) {
            Some(l) => {
                let mut i: usize = 0;
                while i < l.entries.len()
                    invariant
                        i <= l.entries@.len(),
                        out@.len() == i,
                        forall|j: int| 0 <= j < i ==> (#[trigger] out@[j])@ == l.entries@[j]@,
                    decreases l.entries@.len() - i,
                {
                    out.push(l.entries[i].clone());
                    i = i + 1;
                }
                assert(telemetry::list_models(out@) =~= l@);
            },
            None => {
                assert(telemetry::list_models(out@) =~= Seq::<SdsLogModel>::empty());
            },
        }
        out
    }
}

/// The log survives a restart: a server that replays its history knows the same messages
/// as one that noted a message and wrote its record down. The other records of the
/// history do not touch the log.
pub proof fn messages_survive_restart(history: Seq<RecordModel>, rec: RecordModel)
    ensures
        told(history.push(rec)) == with_record(told(history), rec),
        rec matches RecordModel::SdsTelemetry(r) ==> told(history.push(rec)) == with_message(
            told(history),
            r,
        ) && messages_of(told(history.push(rec)), r.bts)[0] == r.entry,
        rec !is SdsTelemetry ==> told(history.push(rec)) == told(history),
{
    assert(history.push(rec).drop_last() =~= history);
}

} // verus!

//! What base stations tell of themselves: registrations, calls, messages, health and
//! the positions of mobile stations.
use crate::protocol;
use crate::table;
use crate::table::{KeySet, Table, TableKey};
use std::collections::VecDeque;
use vstd::prelude::*;

verus! {

/// A short data message in a station's log.
#[derive(Debug)]
pub struct SdsLogEntry {
    pub at_ms: u64,
    pub direction: String,
    pub source_issi: u32,
    pub dest_issi: u32,
    pub is_group: bool,
    pub protocol_id: u8,
    pub text: String,
}

#[verifier::ext_equal]
pub struct SdsLogModel {
    pub at_ms: u64,
    pub direction: Seq<char>,
    pub source_issi: u32,
    pub dest_issi: u32,
    pub is_group: bool,
    pub protocol_id: u8,
    pub text: Seq<char>,
}

impl View for SdsLogEntry {
    type V = SdsLogModel;

    open spec fn view(&self) -> SdsLogModel {
        SdsLogModel {
            at_ms: self.at_ms,
            direction: self.direction@,
            source_issi: self.source_issi,
            dest_issi: self.dest_issi,
            is_group: self.is_group,
            protocol_id: self.protocol_id,
            text: self.text@,
        }
    }
}

impl Clone for SdsLogEntry {
    fn clone(&self) -> (r: Self)
        ensures
            r@ == self@,
    {
        SdsLogEntry {
            at_ms: self.at_ms,
            direction: self.direction.clone(),
            source_issi: self.source_issi,
            dest_issi: self.dest_issi,
            is_group: self.is_group,
            protocol_id: self.protocol_id,
            text: self.text.clone(),
        }
    }
}

/// A message as the history keeps it: with the station that told of it.
#[derive(Debug)]
pub struct SdsTelemetryRecord {
    pub bts: String,
    pub entry: SdsLogEntry,
}

#[verifier::ext_equal]
pub struct SdsTelemetryModel {
    pub bts: Seq<char>,
    pub entry: SdsLogModel,
}

impl View for SdsTelemetryRecord {
    type V = SdsTelemetryModel;

    open spec fn view(&self) -> SdsTelemetryModel {
        SdsTelemetryModel { bts: self.bts@, entry: self.entry@ }
    }
}

impl Clone for SdsTelemetryRecord {
    fn clone(&self) -> (r: Self)
        ensures
            r@ == self@,
    {
        SdsTelemetryRecord { bts: self.bts.clone(), entry: self.entry.clone() }
    }
}

/// Messages that are kept of a station.
pub const SDS_LOG_LIMIT: usize = 50;

/// Protocol identifier of location reports.
pub const PID_LIP: u8 = 10;

/// What tells a fix that came over the Brew channel from one that a station told of.
pub const BREW_SOURCE: &'static str = "brew-sds";

/// Why a beacon that a station told of could not be plotted.
pub const NO_COORDINATES: &'static str = "binary LIP / no coordinates on telemetry channel";

/// A group of a mobile station.
#[derive(Debug, Clone)]
pub struct MsGroupInfo {
    pub gssi: u32,
    pub mnemonic: Option<String>,
    pub attachment_mode: Option<u8>,
    pub is_dynamic: bool,
    pub is_attached: bool,
}

/// Outcome of a dynamic group assignment.
#[derive(Debug, Clone)]
pub struct DgnaStatusInfo {
    pub issi: u32,
    pub gssi: u32,
    pub attach: bool,
    pub accepted: bool,
    pub source: String,
    pub detail: String,
}

#[derive(Debug, Clone, Copy, PartialEq, Eq, Structural)]
pub enum HealthLevel {
    Good,
    Degraded,
    Critical,
}

#[derive(Debug, Clone, Copy, PartialEq, Eq, Structural)]
pub enum HealthDomain {
    Service,
    Backhaul,
    Radios,
    Congestion,
}

/// Health of a part of a station.
#[derive(Debug)]
pub struct DomainHealth {
    pub domain: HealthDomain,
    pub level: HealthLevel,
    pub detail: String,
}

#[verifier::ext_equal]
pub struct DomainModel {
    pub domain: HealthDomain,
    pub level: HealthLevel,
    pub detail: Seq<char>,
}

impl View for DomainHealth {
    type V = DomainModel;

    open spec fn view(&self) -> DomainModel {
        DomainModel { domain: self.domain, level: self.level, detail: self.detail@ }
    }
}

/// Health of a station.
#[derive(Debug)]
pub struct HealthSnapshot {
    pub overall: HealthLevel,
    pub domains: Vec<DomainHealth>,
    pub last_action: Option<String>,
    pub uptime_secs: u64,
}

#[verifier::ext_equal]
pub struct HealthModel {
    pub overall: HealthLevel,
    pub domains: Seq<DomainModel>,
    pub last_action: Option<Seq<char>>,
    pub uptime_secs: u64,
}

impl View for HealthSnapshot {
    type V = HealthModel;

    open spec fn view(&self) -> HealthModel {
        HealthModel {
            overall: self.overall,
            domains: Seq::new(self.domains@.len(), |i: int| self.domains@[i]@),
            last_action: protocol::opt_text(self.last_action),
            uptime_secs: self.uptime_secs,
        }
    }
}

#[derive(Debug, Clone, Copy, PartialEq, Eq, Structural)]
pub enum SysSensorKind {
    Temperature,
    Voltage,
    Current,
    Power,
}

/// What a station tells. Readings of instruments are left to whoever plots them; of
/// these events only the kind matters here.
#[allow(inconsistent_fields)]
#[derive(Debug)]
pub enum TelemetryEvent {
    MsRegistration { issi: u32 },
    MsDeregistration { issi: u32 },
    MsTimeoutDrop { issi: u32 },
    MsGroupAttach { issi: u32, gssis: Vec<u32> },
    MsGroupDetach { issi: u32, gssis: Vec<u32> },
    MsGroupsSnapshot { issi: u32, gssis: Vec<u32> },
    MsGroupCatalogSnapshot { issi: u32, groups: Vec<MsGroupInfo> },
    /// `rssi_dbfs` holds the bits of a float in IEEE format.
    MsRssi { issi: u32, rssi_dbfs: u32 },
    MsEnergySaving { issi: u32, mode: u8 },
    DgnaStatus(DgnaStatusInfo),
    GroupCallStarted {
        call_id: u16,
        gssi: u32,
        caller_issi: u32,
        carrier_num: u16,
        ts: u8,
        priority: u8,
    },
    GroupCallEnded { call_id: u16, gssi: u32 },
    IndividualCallStarted {
        call_id: u16,
        calling_issi: u32,
        called_issi: u32,
        simplex: bool,
        carrier_num: u16,
        ts: u8,
        peer_carrier_num: Option<u16>,
        peer_ts: Option<u8>,
        priority: u8,
    },
    IndividualCallEnded { call_id: u16 },
    CallSpeakerChanged {
        call_id: u16,
        is_group: bool,
        dest_addr: u32,
        speaker_issi: u32,
        carrier_num: u16,
        ts: u8,
    },
    TsVoiceActivity { carrier_num: u16, ts: u8, speaker_issi: Option<u32> },
    SdsActivity { source_issi: u32, dest_issi: u32 },
    SdsLog {
        direction: String,
        source_issi: u32,
        dest_issi: u32,
        is_group: bool,
        protocol_id: u8,
        text: String,
    },
    TxVisual,
    TxQuality,
    SdrHealth,
    SysHealth,
    HealthSnapshot(HealthSnapshot),
    EmergencyAlarm { source_issi: u32, dest_ssi: u32 },
    EmergencyCancel { source_issi: u32 },
    BrewConnected { connected: bool, server_version: u8 },
    DapnetLog {
        direction: String,
        id: String,
        callsign: String,
        recipient: String,
        text: String,
        priority: Option<u8>,
        paths: Vec<String>,
    },
}

/// A call that a station carries.
#[derive(Debug, Clone, Copy, PartialEq, Eq, Structural)]
pub struct TelemetryCall {
    pub call_id: u16,
    pub is_group: bool,
    pub gssi_or_called: u32,
    pub source_issi: u32,
    pub carrier_num: u16,
    pub ts: u8,
    pub priority: u8,
    pub started_at_ms: u64,
}

impl View for TelemetryCall {
    type V = TelemetryCall;

    open spec fn view(&self) -> TelemetryCall {
        *self
    }
}

/// A position beacon that carried no coordinates.
#[derive(Debug)]
pub struct UndecodedBeacon {
    pub issi: u32,
    pub at_ms: u64,
    pub count: u32,
    pub reason: String,
}

#[verifier::ext_equal]
pub struct BeaconModel {
    pub issi: u32,
    pub at_ms: u64,
    pub count: u32,
    pub reason: Seq<char>,
}

impl View for UndecodedBeacon {
    type V = BeaconModel;

    open spec fn view(&self) -> BeaconModel {
        BeaconModel {
            issi: self.issi,
            at_ms: self.at_ms,
            count: self.count,
            reason: self.reason@,
        }
    }
}

/// Latitude and longitude in degrees, each as the bits of a double in IEEE format.
/// Nothing here computes with them.
#[derive(Debug, Clone, Copy, PartialEq, Eq, Structural)]
pub struct Place {
    pub lat: u64,
    pub lon: u64,
}

/// Whether a double is zero, of either sign.
pub open spec fn zero_bits(b: u64) -> bool {
    b == 0 || b == 0x8000_0000_0000_0000
}

impl Place {
    /// Whether both coordinates are zero, which stands for a place not given.
    pub open spec fn unset(self) -> bool {
        zero_bits(self.lat) && zero_bits(self.lon)
    }

    pub fn is_unset(&self) -> (r: bool)
        ensures
            r == self.unset(),
    {
        (self.lat == 0 || self.lat == 0x8000_0000_0000_0000) && (self.lon == 0 || self.lon
            == 0x8000_0000_0000_0000)
    }
}

/// Where a mobile station was.
#[derive(Debug)]
pub struct MsPosition {
    pub issi: u32,
    pub place: Place,
    pub at_ms: u64,
    /// The text that the coordinates were read from.
    pub source_text: String,
}

#[verifier::ext_equal]
pub struct PositionModel {
    pub issi: u32,
    pub place: Place,
    pub at_ms: u64,
    pub source_text: Seq<char>,
}

impl View for MsPosition {
    type V = PositionModel;

    open spec fn view(&self) -> PositionModel {
        PositionModel {
            issi: self.issi,
            place: self.place,
            at_ms: self.at_ms,
            source_text: self.source_text@,
        }
    }
}

/// Where a mobile station was, and who told of it.
#[derive(Debug)]
pub struct PositionFix {
    pub issi: u32,
    pub place: Place,
    pub at_ms: u64,
    pub bts: String,
    pub source_text: String,
}

#[verifier::ext_equal]
pub struct FixModel {
    pub issi: u32,
    pub place: Place,
    pub at_ms: u64,
    pub bts: Seq<char>,
    pub source_text: Seq<char>,
}

impl View for PositionFix {
    type V = FixModel;

    open spec fn view(&self) -> FixModel {
        FixModel {
            issi: self.issi,
            place: self.place,
            at_ms: self.at_ms,
            bts: self.bts@,
            source_text: self.source_text@,
        }
    }
}

/// What has a time and can be copied.
pub trait Timed: View + Sized {
    spec fn time(v: Self::V) -> u64;

    fn at(&self) -> (r: u64)
        ensures
            r == Self::time(self@),
    ;

    fn copy(&self) -> (r: Self)
        ensures
            r@ == self@,
    ;
}

impl Timed for UndecodedBeacon {
    open spec fn time(v: BeaconModel) -> u64 {
        v.at_ms
    }

    fn at(&self) -> (r: u64) {
        self.at_ms
    }

    fn copy(&self) -> (r: Self) {
        UndecodedBeacon {
            issi: self.issi,
            at_ms: self.at_ms,
            count: self.count,
            reason: self.reason.clone(),
        }
    }
}

impl Timed for MsPosition {
    open spec fn time(v: PositionModel) -> u64 {
        v.at_ms
    }

    fn at(&self) -> (r: u64) {
        self.at_ms
    }

    fn copy(&self) -> (r: Self) {
        MsPosition {
            issi: self.issi,
            place: self.place,
            at_ms: self.at_ms,
            source_text: self.source_text.clone(),
        }
    }
}

impl Timed for PositionFix {
    open spec fn time(v: FixModel) -> u64 {
        v.at_ms
    }

    fn at(&self) -> (r: u64) {
        self.at_ms
    }

    fn copy(&self) -> (r: Self) {
        PositionFix {
            issi: self.issi,
            place: self.place,
            at_ms: self.at_ms,
            bts: self.bts.clone(),
            source_text: self.source_text.clone(),
        }
    }
}

pub open spec fn list_models<V: View>(v: Seq<V>) -> Seq<V::V> {
    Seq::new(v.len(), |i: int| v[i]@)
}

/// Whether a list has the values of a map, each key once.
pub open spec fn lists_values<K, A>(list: Seq<A>, m: Map<K, A>) -> bool {
    exists|keys: Seq<K>| #[trigger] lists_in_order(list, m, keys)
}

/// Whether a list has the values of a map in the order of some keys.
pub open spec fn lists_in_order<K, A>(list: Seq<A>, m: Map<K, A>, keys: Seq<K>) -> bool {
    &&& keys.no_duplicates()
    &&& keys.to_set() =~= m.dom()
    &&& list.len() == keys.len()
    &&& forall|i: int| 0 <= i < keys.len() ==> #[trigger] list[i] == m[keys[i]]
}

/// Whether a list starts with what happened last.
pub open spec fn newest_first<V: Timed>(list: Seq<V::V>) -> bool {
    forall|i: int, j: int|
        0 <= i <= j < list.len() ==> V::time(#[trigger] list[i]) >= V::time(#[trigger] list[j])
}

/// The values of a table, the newest first.
pub fn sorted_values<K: TableKey, V: Timed>(t: &Table<K, V>) -> (r: Vec<V>)
    ensures
        lists_values(list_models(r@), t@),
        newest_first::<V>(list_models(r@)),
{
    let n: usize = t.len();
    let ghost entries = t.entries();
    let mut out: Vec<V> = Vec::new();
    let ghost mut keys: Seq<K::V> = seq![];
    let mut i: usize = 0;
    while i < n
        invariant
            n == entries.len(),
            entries == t.entries(),
            table::keys_distinct(entries),
            i <= n,
            out@.len() == i,
            keys.len() == i,
            keys.no_duplicates(),
            forall|k: K::V| #[trigger]
                keys.contains(k) <==> exists|j: int| 0 <= j < i && (#[trigger] entries[j]).0 == k,
            forall|j: int|
                0 <= j < i ==> t@.dom().contains(#[trigger] keys[j]) && list_models(out@)[j]
                    == t@[keys[j]],
            newest_first::<V>(list_models(out@)),
            forall|j: int|
                0 <= j < n ==> t@.dom().contains((#[trigger] entries[j]).0) && t@[entries[j].0]
                    == entries[j].1,
        decreases n - i,
    {
        let (k, v) = t.entry(i);
        let at: u64 = v.at();
        let ghost before = list_models(out@);
        let mut p: usize = 0;
        while p < out.len() && out[p].at() >= at
            invariant
                p <= out@.len(),
                before == list_models(out@),
                forall|j: int| 0 <= j < p ==> V::time(#[trigger] before[j]) >= at,
            decreases out@.len() - p,
        {
            p = p + 1;
        }
        let c = v.copy();
        let ghost m = c@;
        let ghost old_keys = keys;
        out.insert(p, c);
        proof {
            let after = list_models(out@);
            assert(after =~= before.insert(p as int, m));
            keys = keys.insert(p as int, k@);
            assert(entries[i as int] == (k@, v@));
            assert forall|a: int, b: int| 0 <= a <= b < after.len() implies V::time(
                #[trigger] after[a],
            ) >= V::time(#[trigger] after[b]) by {
                if a < p && b > p {
                    assert(V::time(before[a]) >= V::time(before[b - 1]));
                } else if a < p && b < p {
                    assert(V::time(before[a]) >= V::time(before[b]));
                } else if a > p {
                    assert(V::time(before[a - 1]) >= V::time(before[b - 1]));
                } else if a == p && b > p {
                    assert(V::time(before[p as int]) < at);
                    assert(V::time(before[p as int]) >= V::time(before[b - 1]));
                } else if a < p && b == p {
                    assert(V::time(before[a]) >= at);
                }
            }
            assert(!old_keys.contains(k@)) by {
                if old_keys.contains(k@) {
                    let j = choose|j: int| 0 <= j < i && (#[trigger] entries[j]).0 == k@;
                    assert(entries[j].0 == entries[i as int].0);
                }
            }
            assert(keys.no_duplicates()) by {
                assert forall|a: int, b: int|
                    0 <= a < keys.len() && 0 <= b < keys.len() && a != b implies keys[a]
                    != keys[b] by {
                    let x = if a < p {
                        a
                    } else {
                        a - 1
                    };
                    let y = if b < p {
                        b
                    } else {
                        b - 1
                    };
                    if a != p && b != p {
                        assert(keys[a] == old_keys[x] && keys[b] == old_keys[y]);
                    } else if a == p {
                        assert(keys[b] == old_keys[y]);
                        assert(old_keys.contains(old_keys[y]));
                    } else {
                        assert(keys[a] == old_keys[x]);
                        assert(old_keys.contains(old_keys[x]));
                    }
                }
            }
            assert forall|q: K::V| #[trigger]
                keys.contains(q) <==> exists|j: int|
                0 <= j < i + 1 && (#[trigger] entries[j]).0 == q by {
                if keys.contains(q) {
                    let j = keys.index_of(q);
                    if j == p {
                        assert(entries[i as int].0 == q);
                    } else {
                        let x = if j < p {
                            j
                        } else {
                            j - 1
                        };
                        assert(old_keys[x] == q);
                        assert(old_keys.contains(q));
                        let w = choose|w: int| 0 <= w < i && (#[trigger] entries[w]).0 == q;
                        assert(0 <= w < i + 1 && entries[w].0 == q);
                    }
                }
                if exists|j: int| 0 <= j < i + 1 && (#[trigger] entries[j]).0 == q {
                    let j = choose|j: int| 0 <= j < i + 1 && (#[trigger] entries[j]).0 == q;
                    if j < i {
                        assert(old_keys.contains(q));
                        let x = old_keys.index_of(q);
                        let y = if x < p {
                            x
                        } else {
                            x + 1
                        };
                        assert(keys[y] == q);
                    } else {
                        assert(keys[p as int] == q);
                    }
                }
            }
            assert forall|j: int| 0 <= j < i + 1 implies t@.dom().contains(#[trigger] keys[j])
                && after[j] == t@[keys[j]] by {
                if j < p {
                    assert(keys[j] == old_keys[j]);
                } else if j > p {
                    assert(keys[j] == old_keys[j - 1]);
                }
            }
        }
        i = i + 1;
    }
    proof {
        assert(keys.to_set() =~= t@.dom());
        assert(lists_in_order(list_models(out@), t@, keys));
    }
    out
}

/// Whether a list of numbers grows.
pub open spec fn increasing(v: Seq<u32>) -> bool {
    forall|i: int, j: int| 0 <= i < j < v.len() ==> v[i] < v[j]
}

/// The members of a set of numbers, the smallest first.
pub fn sorted_members(s: &KeySet<u32>) -> (r: Vec<u32>)
    ensures
        increasing(r@),
        r@.to_set() == s@,
{
    let n: usize = s.len();
    let ghost members = s.members();
    let mut out: Vec<u32> = Vec::new();
    let mut i: usize = 0;
    while i < n
        invariant
            n == members.len(),
            members == s.members(),
            members.no_duplicates(),
            i <= n,
            increasing(out@),
            forall|x: u32| #[trigger]
                out@.contains(x) <==> exists|j: int| 0 <= j < i && #[trigger] members[j] == x,
        decreases n - i,
    {
        let x: u32 = *s.member(i);
        let ghost before = out@;
        let mut p: usize = 0;
        while p < out.len() && out[p] < x
            invariant
                p <= out@.len(),
                before == out@,
                forall|j: int| 0 <= j < p ==> #[trigger] before[j] < x,
            decreases out@.len() - p,
        {
            p = p + 1;
        }
        out.insert(p, x);
        proof {
            assert(!before.contains(x));
            if p < before.len() {
                assert(before.contains(before[p as int]));
            }
            assert forall|a: int, b: int| 0 <= a < b < out@.len() implies out@[a] < out@[b] by {
                if a > p {
                    assert(before[a - 1] < before[b - 1]);
                } else if a == p {
                    assert(before[p as int] <= before[b - 1]);
                } else if b > p {
                    assert(before[a] < x);
                }
            }
            assert forall|q: u32| #[trigger]
                out@.contains(q) <==> exists|j: int|
                0 <= j < i + 1 && #[trigger] members[j] == q by {
                if out@.contains(q) {
                    let j = out@.index_of(q);
                    if j == p {
                        assert(members[i as int] == q);
                    } else {
                        let y = if j < p {
                            j
                        } else {
                            j - 1
                        };
                        assert(before[y] == q);
                        assert(before.contains(q));
                        let w = choose|w: int| 0 <= w < i && #[trigger] members[w] == q;
                        assert(0 <= w < i + 1 && members[w] == q);
                    }
                }
                if exists|j: int| 0 <= j < i + 1 && #[trigger] members[j] == q {
                    let j = choose|j: int| 0 <= j < i + 1 && #[trigger] members[j] == q;
                    if j < i {
                        assert(before.contains(q));
                        let y = before.index_of(q);
                        assert(out@[if y < p {
                            y
                        } else {
                            y + 1
                        }] == q);
                    } else {
                        assert(out@[p as int] == q);
                    }
                }
            }
        }
        i = i + 1;
    }
    proof {
        assert forall|x: u32| out@.to_set().contains(x) <==> s@.contains(x) by {
            if out@.to_set().contains(x) {
                assert(out@.contains(x));
                let j = choose|j: int| 0 <= j < n && #[trigger] members[j] == x;
                assert(members.contains(x));
            }
            if s@.contains(x) {
                assert(members.contains(x));
                let j = members.index_of(x);
                assert(members[j] == x);
                assert(out@.contains(x));
            }
        }
        assert(out@.to_set() =~= s@);
    }
    out
}

/// What is known of a connected base station.
#[derive(Debug)]
pub struct TelemetryBts {
    pub id: String,
    pub connected_at_ms: u64,
    pub last_event_at_ms: u64,
    pub health: Option<HealthSnapshot>,
    pub backhaul_connected: Option<bool>,
    pub registrations: KeySet<u32>,
    pub registration_count: usize,
    /// The registered subscribers, the smallest number first.
    pub registrations_list: Vec<u32>,
    pub active_calls: Table<u16, TelemetryCall>,
    pub emergencies: KeySet<u32>,
    /// How strong each mobile station was received last, as the bits of a float in IEEE
    /// format.
    pub ms_rssi: Table<u32, u32>,
    pub recent_sds: VecDeque<SdsLogEntry>,
    /// The recent messages, the newest first.
    pub recent_sds_out: Vec<SdsLogEntry>,
    /// Where each mobile station was last, by what it said in text.
    pub positions: Table<u32, MsPosition>,
    /// The positions, the newest first.
    pub positions_out: Vec<MsPosition>,
    /// The mobile stations that send position beacons without coordinates.
    pub undecoded_beacons: Table<u32, UndecodedBeacon>,
    /// The beacons without coordinates, the newest first.
    pub undecoded_beacons_out: Vec<UndecodedBeacon>,
}

/// What is known of a base station.
#[verifier::ext_equal]
pub struct StationFacts {
    pub id: Seq<char>,
    pub connected_at_ms: u64,
    pub last_event_at_ms: u64,
    pub health: Option<HealthModel>,
    pub backhaul_connected: Option<bool>,
    pub registrations: Set<u32>,
    pub active_calls: Map<u16, TelemetryCall>,
    pub emergencies: Set<u32>,
    pub ms_rssi: Map<u32, u32>,
    pub recent_sds: Seq<SdsLogModel>,
    pub positions: Map<u32, PositionModel>,
    pub undecoded_beacons: Map<u32, BeaconModel>,
}

/// What is known of a base station, and the lists that are shown of it.
#[verifier::ext_equal]
pub struct StationModel {
    pub known: StationFacts,
    pub registration_count: nat,
    pub registrations_list: Seq<u32>,
    pub recent_sds_out: Seq<SdsLogModel>,
    pub positions_out: Seq<PositionModel>,
    pub undecoded_beacons_out: Seq<BeaconModel>,
}

pub open spec fn opt_health(h: Option<HealthSnapshot>) -> Option<HealthModel> {
    match h {
        Some(h) => Some(h@),
        None => None,
    }
}

impl View for TelemetryBts {
    type V = StationModel;

    open spec fn view(&self) -> StationModel {
        StationModel {
            known: StationFacts {
                id: self.id@,
                connected_at_ms: self.connected_at_ms,
                last_event_at_ms: self.last_event_at_ms,
                health: opt_health(self.health),
                backhaul_connected: self.backhaul_connected,
                registrations: self.registrations@,
                active_calls: self.active_calls@,
                emergencies: self.emergencies@,
                ms_rssi: self.ms_rssi@,
                recent_sds: list_models(self.recent_sds@),
                positions: self.positions@,
                undecoded_beacons: self.undecoded_beacons@,
            },
            registration_count: self.registration_count as nat,
            registrations_list: self.registrations_list@,
            recent_sds_out: list_models(self.recent_sds_out@),
            positions_out: list_models(self.positions_out@),
            undecoded_beacons_out: list_models(self.undecoded_beacons_out@),
        }
    }
}

impl StationModel {
    /// Whether the count and the sorted list of registrations are up to date.
    pub open spec fn registrations_in_step(self) -> bool {
        &&& self.registration_count == self.known.registrations.len()
        &&& increasing(self.registrations_list)
        &&& self.registrations_list.to_set() == self.known.registrations
    }

    /// Whether the sorted list of positions is up to date.
    pub open spec fn positions_in_step(self) -> bool {
        &&& lists_values(self.positions_out, self.known.positions)
        &&& newest_first::<MsPosition>(self.positions_out)
    }

    /// Whether the sorted list of beacons without coordinates is up to date.
    pub open spec fn undecoded_in_step(self) -> bool {
        &&& lists_values(self.undecoded_beacons_out, self.known.undecoded_beacons)
        &&& newest_first::<UndecodedBeacon>(self.undecoded_beacons_out)
    }

    /// Whether every list that is shown is up to date, and every position is filed
    /// under the subscriber that it belongs to.
    pub open spec fn in_step(self) -> bool {
        &&& self.registrations_in_step()
        &&& self.positions_in_step()
        &&& self.undecoded_in_step()
        &&& self.recent_sds_out == self.known.recent_sds
        &&& filed(self.known.positions)
    }
}

/// Whether every position is filed under the subscriber that it belongs to.
pub open spec fn filed(m: Map<u32, PositionModel>) -> bool {
    forall|k: u32| #[trigger] m.dom().contains(k) ==> m[k].issi == k
}

/// A station that has just connected.
pub open spec fn new_station(id: Seq<char>, now: u64) -> StationFacts {
    StationFacts {
        id,
        connected_at_ms: now,
        last_event_at_ms: now,
        health: None,
        backhaul_connected: None,
        registrations: Set::empty(),
        active_calls: Map::empty(),
        emergencies: Set::empty(),
        ms_rssi: Map::empty(),
        recent_sds: seq![],
        positions: Map::empty(),
        undecoded_beacons: Map::empty(),
    }
}

/// A list with an entry put in front and what is over the limit dropped.
pub open spec fn logged(list: Seq<SdsLogModel>, e: SdsLogModel) -> Seq<SdsLogModel> {
    let longer = seq![e] + list;
    if longer.len() > SDS_LOG_LIMIT {
        longer.subrange(0, SDS_LOG_LIMIT as int)
    } else {
        longer
    }
}

/// One more beacon without coordinates.
pub open spec fn counted(m: Map<u32, BeaconModel>, e: SdsLogModel) -> Map<u32, BeaconModel> {
    let k = e.source_issi;
    if m.dom().contains(k) {
        m.insert(
            k,
            BeaconModel {
                at_ms: e.at_ms,
                count: if m[k].count == u32::MAX {
                    u32::MAX
                } else {
                    (m[k].count + 1) as u32
                },
                ..m[k]
            },
        )
    } else {
        m.insert(k, BeaconModel { issi: k, at_ms: e.at_ms, count: 1, reason: NO_COORDINATES@ })
    }
}

/// A message in a station's log. A place read from its text is where its sender is; a
/// location report without one counts as a beacon that cannot be plotted.
pub open spec fn with_sds(s: StationFacts, e: SdsLogModel, place: Option<Place>) -> StationFacts {
    let recent_sds = logged(s.recent_sds, e);
    match place {
        Some(place) => StationFacts {
            recent_sds,
            positions: s.positions.insert(
                e.source_issi,
                PositionModel {
                    issi: e.source_issi,
                    place,
                    at_ms: e.at_ms,
                    source_text: e.text,
                },
            ),
            undecoded_beacons: s.undecoded_beacons.remove(e.source_issi),
            ..s
        },
        None => if e.protocol_id == PID_LIP {
            StationFacts {
                recent_sds,
                undecoded_beacons: counted(s.undecoded_beacons, e),
                ..s
            }
        } else {
            StationFacts { recent_sds, ..s }
        },
    }
}

/// The station after an event. `place` is what the text of a message says.
pub open spec fn after_event(
    s: StationFacts,
    e: TelemetryEvent,
    place: Option<Place>,
    now: u64,
) -> StationFacts {
    let s = StationFacts { last_event_at_ms: now, ..s };
    match e {
        TelemetryEvent::MsRegistration { issi } => StationFacts {
            registrations: s.registrations.insert(issi),
            ..s
        },
        TelemetryEvent::MsDeregistration { issi } => StationFacts {
            registrations: s.registrations.remove(issi),
            ..s
        },
        TelemetryEvent::MsTimeoutDrop { issi } => StationFacts {
            registrations: s.registrations.remove(issi),
            ..s
        },
        TelemetryEvent::GroupCallStarted {
            call_id,
            gssi,
            caller_issi,
            carrier_num,
            ts,
            priority,
        } => StationFacts {
            active_calls: s.active_calls.insert(
                call_id,
                TelemetryCall {
                    call_id,
                    is_group: true,
                    gssi_or_called: gssi,
                    source_issi: caller_issi,
                    carrier_num,
                    ts,
                    priority,
                    started_at_ms: now,
                },
            ),
            ..s
        },
        TelemetryEvent::GroupCallEnded { call_id, .. } => StationFacts {
            active_calls: s.active_calls.remove(call_id),
            ..s
        },
        TelemetryEvent::IndividualCallStarted {
            call_id,
            calling_issi,
            called_issi,
            carrier_num,
            ts,
            priority,
            ..
        } => StationFacts {
            active_calls: s.active_calls.insert(
                call_id,
                TelemetryCall {
                    call_id,
                    is_group: false,
                    gssi_or_called: called_issi,
                    source_issi: calling_issi,
                    carrier_num,
                    ts,
                    priority,
                    started_at_ms: now,
                },
            ),
            ..s
        },
        TelemetryEvent::IndividualCallEnded { call_id } => StationFacts {
            active_calls: s.active_calls.remove(call_id),
            ..s
        },
        TelemetryEvent::SdsLog { direction, source_issi, dest_issi, is_group, protocol_id, text } => {
            with_sds(
                s,
                SdsLogModel {
                    at_ms: now,
                    direction: direction@,
                    source_issi,
                    dest_issi,
                    is_group,
                    protocol_id,
                    text: text@,
                },
                place,
            )
        },
        TelemetryEvent::MsRssi { issi, rssi_dbfs } => StationFacts {
            ms_rssi: s.ms_rssi.insert(issi, rssi_dbfs),
            ..s
        },
        TelemetryEvent::HealthSnapshot(h) => StationFacts { health: Some(h@), ..s },
        TelemetryEvent::EmergencyAlarm { source_issi, .. } => StationFacts {
            emergencies: s.emergencies.insert(source_issi),
            ..s
        },
        TelemetryEvent::EmergencyCancel { source_issi } => StationFacts {
            emergencies: s.emergencies.remove(source_issi),
            ..s
        },
        TelemetryEvent::BrewConnected { connected, .. } => StationFacts {
            backhaul_connected: Some(connected),
            ..s
        },
        _ => s,
    }
}

/// Whether an event wakes the dashboard. Readings that come every few seconds do not.
pub open spec fn wakes(e: TelemetryEvent) -> bool {
    match e {
        TelemetryEvent::TxVisual => false,
        TelemetryEvent::TxQuality => false,
        TelemetryEvent::SdrHealth => false,
        TelemetryEvent::SysHealth => false,
        TelemetryEvent::MsRssi { .. } => false,
        TelemetryEvent::TsVoiceActivity { .. } => false,
        _ => true,
    }
}

impl TelemetryEvent {
    /// Whether the event wakes the dashboard.
    pub fn notifies(&self) -> (r: bool)
        ensures
            r == wakes(*self),
    {
        match self {
            TelemetryEvent::TxVisual => false,
            TelemetryEvent::TxQuality => false,
            TelemetryEvent::SdrHealth => false,
            TelemetryEvent::SysHealth => false,
            TelemetryEvent::MsRssi { .. } => false,
            TelemetryEvent::TsVoiceActivity { .. } => false,
            _ => true,
        }
    }
}

impl TelemetryBts {
    /// A station that has just connected.
    pub fn new(id: String, now: u64) -> (r: Self)
        ensures
            r@.known == new_station(id@, now),
            r@.in_step(),
    {
        let r = TelemetryBts {
            id,
            connected_at_ms: now,
            last_event_at_ms: now,
            health: None,
            backhaul_connected: None,
            registrations: KeySet::new(),
            registration_count: 0,
            registrations_list: Vec::new(),
            active_calls: Table::new(),
            emergencies: KeySet::new(),
            ms_rssi: Table::new(),
            recent_sds: VecDeque::new(),
            recent_sds_out: Vec::new(),
            positions: Table::new(),
            positions_out: Vec::new(),
            undecoded_beacons: Table::new(),
            undecoded_beacons_out: Vec::new(),
        };
        proof {
            assert(list_models(r.recent_sds@) =~= seq![]);
            assert(list_models(r.recent_sds_out@) =~= seq![]);
            assert(r@.known =~= new_station(id@, now));
            assert(r.registrations_list@.to_set() =~= Set::<u32>::empty());
            let none: Seq<u32> = seq![];
            assert(none.to_set() =~= Set::<u32>::empty());
            assert(lists_in_order(list_models(r.positions_out@), r.positions@, none));
            assert(lists_in_order(
                list_models(r.undecoded_beacons_out@),
                r.undecoded_beacons@,
                none,
            ));
        }
        r
    }

    /// Brings the count and the sorted list of registrations up to date.
    pub fn sync_registrations(&mut self)
        ensures
            final(self)@ == (StationModel {
                registration_count: final(self)@.registration_count,
                registrations_list: final(self)@.registrations_list,
                ..old(self)@
            }),
            final(self)@.registrations_in_step(),
    {
        self.registration_count = self.registrations.len();
        self.registrations_list = sorted_members(&self.registrations);
    }

    /// Brings the sorted list of positions up to date.
    pub fn sync_positions(&mut self)
        ensures
            final(self)@ == (StationModel {
                positions_out: final(self)@.positions_out,
                ..old(self)@
            }),
            final(self)@.positions_in_step(),
    {
        self.positions_out = sorted_values(&self.positions);
    }

    /// Brings the sorted list of beacons without coordinates up to date.
    pub fn sync_undecoded(&mut self)
        ensures
            final(self)@ == (StationModel {
                undecoded_beacons_out: final(self)@.undecoded_beacons_out,
                ..old(self)@
            }),
            final(self)@.undecoded_in_step(),
    {
        self.undecoded_beacons_out = sorted_values(&self.undecoded_beacons);
    }

    fn count_beacon(&mut self, entry: &SdsLogEntry)
        ensures
            final(self)@ == (StationModel {
                known: StationFacts {
                    undecoded_beacons: counted(old(self)@.known.undecoded_beacons, entry@),
                    ..old(self)@.known
                },
                ..old(self)@
            }),
    {
        let k: u32 = entry.source_issi;
        let beacon = match self.undecoded_beacons.remove(&k) {
            Some(b) => UndecodedBeacon {
                at_ms: entry.at_ms,
                count: b.count.saturating_add(1),
                ..b
            },
            None => UndecodedBeacon {
                issi: k,
                at_ms: entry.at_ms,
                count: 1,
                reason: NO_COORDINATES.to_owned(),
            },
        };
        let _ = self.undecoded_beacons.insert(k, beacon);
        assert(self@.known.undecoded_beacons =~= counted(
            old(self)@.known.undecoded_beacons,
            entry@,
        ));
    }

    fn log_sds(&mut self, entry: SdsLogEntry)
        ensures
            final(self)@ == (StationModel {
                known: StationFacts {
                    recent_sds: logged(old(self)@.known.recent_sds, entry@),
                    ..old(self)@.known
                },
                recent_sds_out: logged(old(self)@.known.recent_sds, entry@),
                ..old(self)@
            }),
    {
        let ghost before = self@;
        let ghost m = entry@;
        self.recent_sds.push_front(entry);
        assert(list_models(self.recent_sds@) =~= seq![m] + before.known.recent_sds);
        if self.recent_sds.len() > SDS_LOG_LIMIT {
            self.recent_sds.truncate(SDS_LOG_LIMIT);
        }
        assert(list_models(self.recent_sds@) =~= logged(before.known.recent_sds, m));
        let n: usize = self.recent_sds.len();
        let mut out: Vec<SdsLogEntry> = Vec::new();
        let mut i: usize = 0;
        while i < n
            invariant
                n == self.recent_sds@.len(),
                i <= n,
                out@.len() == i,
                forall|j: int| 0 <= j < i ==> (#[trigger] out@[j])@ == self.recent_sds@[j]@,
            decreases n - i,
        {
            out.push(self.recent_sds[i].clone());
            i = i + 1;
        }
        assert(list_models(out@) =~= list_models(self.recent_sds@));
        self.recent_sds_out = out;
    }

    /// Takes over what is remembered of the messages of the station, the newest first.
    pub fn remember(&mut self, recent: Vec<SdsLogEntry>)
        ensures
            final(self)@ == (StationModel {
                known: StationFacts { recent_sds: list_models(recent@), ..old(self)@.known },
                recent_sds_out: list_models(recent@),
                ..old(self)@
            }),
            old(self)@.in_step() ==> final(self)@.in_step(),
    {
        let n: usize = recent.len();
        let mut list: VecDeque<SdsLogEntry> = VecDeque::new();
        let mut i: usize = 0;
        while i < n
            invariant
                n == recent@.len(),
                i <= n,
                list@.len() == i,
                forall|j: int| 0 <= j < i ==> (#[trigger] list@[j])@ == recent@[j]@,
            decreases n - i,
        {
            list.push_back(recent[i].clone());
            i = i + 1;
        }
        assert(list_models(list@) =~= list_models(recent@));
        self.recent_sds = list;
        self.recent_sds_out = recent;
    }

    /// Notes a message. `place` is where its text says that its sender is.
    pub fn push_sds(&mut self, entry: SdsLogEntry, place: Option<Place>)
        ensures
            final(self)@.known == with_sds(old(self)@.known, entry@, place),
            old(self)@.in_step() ==> final(self)@.in_step(),
            final(self)@.recent_sds_out == final(self)@.known.recent_sds,
            place is Some ==> final(self)@.positions_in_step() && final(self)@.undecoded_in_step(),
            place is None && entry.protocol_id == PID_LIP ==> final(self)@.undecoded_in_step(),
    {
        match place {
            Some(place) => {
                let issi: u32 = entry.source_issi;
                let position = MsPosition {
                    issi,
                    place,
                    at_ms: entry.at_ms,
                    source_text: entry.text.clone(),
                };
                let _ = self.positions.insert(issi, position);
                let _ = self.undecoded_beacons.remove(&issi);
                self.sync_positions();
                self.sync_undecoded();
            },
            None => {
                if entry.protocol_id == PID_LIP {
                    self.count_beacon(&entry);
                    self.sync_undecoded();
                }
            },
        }
        self.log_sds(entry);
    }

    /// Takes an event. `place` is where the text of a message says that its sender is.
    pub fn handle_event(&mut self, event: TelemetryEvent, place: Option<Place>, now: u64)
        ensures
            final(self)@.known == after_event(old(self)@.known, event, place, now),
            old(self)@.in_step() ==> final(self)@.in_step(),
    {
        self.last_event_at_ms = now;
        match event {
            TelemetryEvent::MsRegistration { issi } => {
                let _ = self.registrations.insert(issi);
                self.sync_registrations();
            },
            TelemetryEvent::MsDeregistration { issi } => {
                let _ = self.registrations.remove(&issi);
                self.sync_registrations();
            },
            TelemetryEvent::MsTimeoutDrop { issi } => {
                let _ = self.registrations.remove(&issi);
                self.sync_registrations();
            },
            TelemetryEvent::GroupCallStarted {
                call_id,
                gssi,
                caller_issi,
                carrier_num,
                ts,
                priority,
            } => {
                let _ = self.active_calls.insert(
                    call_id,
                    TelemetryCall {
                        call_id,
                        is_group: true,
                        gssi_or_called: gssi,
                        source_issi: caller_issi,
                        carrier_num,
                        ts,
                        priority,
                        started_at_ms: now,
                    },
                );
            },
            TelemetryEvent::GroupCallEnded { call_id, .. } => {
                let _ = self.active_calls.remove(&call_id);
            },
            TelemetryEvent::IndividualCallStarted {
                call_id,
                calling_issi,
                called_issi,
                carrier_num,
                ts,
                priority,
                ..
            } => {
                let _ = self.active_calls.insert(
                    call_id,
                    TelemetryCall {
                        call_id,
                        is_group: false,
                        gssi_or_called: called_issi,
                        source_issi: calling_issi,
                        carrier_num,
                        ts,
                        priority,
                        started_at_ms: now,
                    },
                );
            },
            TelemetryEvent::IndividualCallEnded { call_id } => {
                let _ = self.active_calls.remove(&call_id);
            },
            TelemetryEvent::SdsLog {
                direction,
                source_issi,
                dest_issi,
                is_group,
                protocol_id,
                text,
            } => {
                let entry = SdsLogEntry {
                    at_ms: now,
                    direction,
                    source_issi,
                    dest_issi,
                    is_group,
                    protocol_id,
                    text,
                };
                self.push_sds(entry, place);
            },
            TelemetryEvent::MsRssi { issi, rssi_dbfs } => {
                let _ = self.ms_rssi.insert(issi, rssi_dbfs);
            },
            TelemetryEvent::HealthSnapshot(h) => {
                self.health = Some(h);
            },
            TelemetryEvent::EmergencyAlarm { source_issi, .. } => {
                let _ = self.emergencies.insert(source_issi);
            },
            TelemetryEvent::EmergencyCancel { source_issi } => {
                let _ = self.emergencies.remove(&source_issi);
            },
            TelemetryEvent::BrewConnected { connected, .. } => {
                self.backhaul_connected = Some(connected);
            },
            _ => {},
        }
    }
}

/// What is known of all base stations, and of mobile stations over the Brew channel.
#[derive(Debug)]
pub struct TelemetryState {
    pub stations: Table<String, TelemetryBts>,
    /// Positions read from messages on the Brew channel.
    pub sds_positions: Table<u32, PositionFix>,
}

#[verifier::ext_equal]
pub struct TelemetryModel {
    pub stations: Map<Seq<char>, StationModel>,
    pub sds_positions: Map<u32, FixModel>,
}

/// What is known of all stations.
#[verifier::ext_equal]
pub struct TelemetryFacts {
    pub stations: Map<Seq<char>, StationFacts>,
    pub sds_positions: Map<u32, FixModel>,
}

impl View for TelemetryState {
    type V = TelemetryModel;

    open spec fn view(&self) -> TelemetryModel {
        TelemetryModel { stations: self.stations@, sds_positions: self.sds_positions@ }
    }
}

impl TelemetryModel {
    /// What is known, apart from the lists that are shown of the stations.
    pub open spec fn known(self) -> TelemetryFacts {
        TelemetryFacts {
            stations: self.stations.map_values(|s: StationModel| s.known),
            sds_positions: self.sds_positions,
        }
    }

    /// Whether every station files each position under the subscriber that it belongs to.
    pub open spec fn well_filed(self) -> bool {
        forall|k: Seq<char>| #[trigger]
            self.stations.dom().contains(k) ==> filed(self.stations[k].known.positions)
    }

    /// Whether every list that is shown of a station is up to date.
    pub open spec fn in_step(self) -> bool {
        forall|k: Seq<char>| #[trigger]
            self.stations.dom().contains(k) ==> self.stations[k].in_step()
    }
}

/// A position that a station told of.
pub open spec fn told_by(p: PositionModel, bts: Seq<char>) -> FixModel {
    FixModel {
        issi: p.issi,
        place: p.place,
        at_ms: p.at_ms,
        bts,
        source_text: p.source_text,
    }
}

/// Fixes with those of a station added; of two fixes of a subscriber the newer stays,
/// and of two of the same time the one that is added.
pub open spec fn joined(m: Map<u32, FixModel>, s: StationModel) -> Map<u32, FixModel> {
    Map::new(
        |k: u32| m.dom().contains(k) || s.known.positions.dom().contains(k),
        |k: u32|
            if s.known.positions.dom().contains(k) && (!m.dom().contains(k) || s.known.positions[k].at_ms
                >= m[k].at_ms) {
                told_by(s.known.positions[k], s.known.id)
            } else {
                m[k]
            },
    )
}

/// Fixes with those of several stations added, one after the other.
pub open spec fn joined_all(m: Map<u32, FixModel>, stations: Seq<(Seq<char>, StationModel)>) -> Map<
    u32,
    FixModel,
>
    decreases stations.len(),
{
    if stations.len() == 0 {
        m
    } else {
        joined(joined_all(m, stations.drop_last()), stations.last().1)
    }
}

/// A station without a beacon that could not be plotted.
pub open spec fn plotted(s: StationFacts, issi: u32) -> StationFacts {
    StationFacts { undecoded_beacons: s.undecoded_beacons.remove(issi), ..s }
}

/// A fix over the Brew channel. The subscriber can be plotted now, whatever any station
/// said.
pub open spec fn with_fix(
    t: TelemetryFacts,
    issi: u32,
    place: Place,
    at_ms: u64,
    source_text: Seq<char>,
) -> TelemetryFacts {
    TelemetryFacts {
        stations: t.stations.map_values(|s: StationFacts| plotted(s, issi)),
        sds_positions: t.sds_positions.insert(
            issi,
            FixModel { issi, place, at_ms, bts: BREW_SOURCE@, source_text },
        ),
    }
}

/// Whether a station is as it was but for a beacon that could not be plotted, which is
/// gone, also from the list that is shown.
pub open spec fn cleared(was: StationModel, is: StationModel, issi: u32) -> bool {
    if was.known.undecoded_beacons.dom().contains(issi) {
        &&& is == StationModel {
            known: plotted(was.known, issi),
            undecoded_beacons_out: is.undecoded_beacons_out,
            ..was
        }
        &&& is.undecoded_in_step()
    } else {
        is == was
    }
}

/// Whether a key is among the first entries of a list.
spec fn among<A>(entries: Seq<(u32, A)>, i: int, k: u32) -> bool {
    exists|j: int| 0 <= j < i && (#[trigger] entries[j]).0 == k
}

fn join_station(m: &mut Table<u32, PositionFix>, s: &TelemetryBts)
    requires
        filed(s@.known.positions),
    ensures
        final(m)@ == joined(old(m)@, s@),
{
    let n: usize = s.positions.len();
    let ghost entries = s.positions.entries();
    let ghost start = m@;
    let mut i: usize = 0;
    while i < n
        invariant
            n == entries.len(),
            entries == s.positions.entries(),
            table::keys_distinct(entries),
            filed(s@.known.positions),
            i <= n,
            forall|j: int|
                0 <= j < n ==> s.positions@.dom().contains((#[trigger] entries[j]).0)
                    && s.positions@[entries[j].0] == entries[j].1,
            forall|k: u32| #[trigger]
                m@.dom().contains(k) <==> start.dom().contains(k) || among(entries, i as int, k),
            forall|k: u32| #[trigger]
                m@.dom().contains(k) ==> m@[k] == (if among(entries, i as int, k) {
                    joined(start, s@)[k]
                } else {
                    start[k]
                }),
        decreases n - i,
    {
        let (key, p) = s.positions.entry(i);
        let ghost before = m@;
        assert(entries[i as int] == (key@, p@));
        assert(p.issi == *key);
        assert(!among(entries, i as int, *key)) by {
            if among(entries, i as int, *key) {
                let j = choose|j: int| 0 <= j < i && (#[trigger] entries[j]).0 == *key;
                assert(entries[j].0 == entries[i as int].0);
            }
        }
        let newer = match m.get(&p.issi) {
            Some(e) => p.at_ms >= e.at_ms,
            None => true,
        };
        if newer {
            let fix = PositionFix {
                issi: p.issi,
                place: p.place,
                at_ms: p.at_ms,
                bts: s.id.clone(),
                source_text: p.source_text.clone(),
            };
            let _ = m.insert(p.issi, fix);
        }
        proof {
            assert forall|k: u32| #[trigger]
                among(entries, i + 1, k) <==> (k == *key || among(entries, i as int, k)) by {
                if k == *key {
                    assert(entries[i as int].0 == k);
                }
                if among(entries, i as int, k) {
                    let j = choose|j: int| 0 <= j < i && (#[trigger] entries[j]).0 == k;
                    assert(0 <= j < i + 1 && entries[j].0 == k);
                }
            }
        }
        i = i + 1;
    }
    proof {
        assert forall|k: u32| #[trigger] s.positions@.dom().contains(k) implies among(
            entries,
            n as int,
            k,
        ) by {
            let j = choose|j: int| 0 <= j < n && (#[trigger] entries[j]).0 == k;
            assert(entries[j].0 == k);
        }
        assert(m@ =~= joined(start, s@));
    }
}

impl Default for TelemetryState {
    fn default() -> (r: Self)
        ensures
            r@ == (TelemetryModel { stations: Map::empty(), sds_positions: Map::empty() }),
            r@.well_filed(),
            r@.in_step(),
    {
        TelemetryState::new()
    }
}

impl TelemetryState {
    pub fn new() -> (r: Self)
        ensures
            r@ == (TelemetryModel { stations: Map::empty(), sds_positions: Map::empty() }),
            r@.well_filed(),
            r@.in_step(),
    {
        let r = TelemetryState { stations: Table::new(), sds_positions: Table::new() };
        assert(r@ =~= TelemetryModel { stations: Map::empty(), sds_positions: Map::empty() });
        r
    }

    /// All stations, each once, with the lists that are shown of them.
    pub fn snapshot(&self) -> (r: Vec<&TelemetryBts>)
        ensures
            lists_values(list_models(r@), self@.stations),
            r@.len() == self.stations.entries().len(),
            forall|i: int|
                0 <= i < r@.len() ==> (#[trigger] r@[i])@ == self.stations.entries()[i].1,
            self@.in_step() ==> forall|i: int|
                0 <= i < r@.len() ==> (#[trigger] r@[i])@.in_step(),
    {
        let n: usize = self.stations.len();
        let mut out: Vec<&TelemetryBts> = Vec::new();
        let mut i: usize = 0;
        while i < n
            invariant
                n == self.stations.entries().len(),
                i <= n,
                out@.len() == i,
                forall|j: int|
                    0 <= j < i ==> (#[trigger] out@[j])@ == self.stations.entries()[j].1,
            decreases n - i,
        {
            let (_, s) = self.stations.entry(i);
            out.push(s);
            i = i + 1;
        }
        proof {
            let entries = self.stations.entries();
            let keys = entries.map_values(|e: (Seq<char>, StationModel)| e.0);
            assert forall|k: Seq<char>| #[trigger] self@.stations.dom().contains(k) implies
                keys.contains(k) by {
                let j = choose|j: int| 0 <= j < n && (#[trigger] entries[j]).0 == k;
                assert(keys[j] == k);
            }
            assert(keys.to_set() =~= self@.stations.dom());
            assert(lists_in_order(list_models(out@), self@.stations, keys));
            if self@.in_step() {
                assert forall|i: int| 0 <= i < out@.len() implies (#[trigger] out@[i])@.in_step() by {
                    assert(self@.stations.dom().contains(entries[i].0));
                }
            }
        }
        out
    }

    /// Where each mobile station was last, the newest first. Fixes over the Brew channel
    /// and those that stations told of are put together; of two of a subscriber the
    /// newer counts.
    pub fn positions(&self) -> (r: Vec<PositionFix>)
        requires
            self@.well_filed(),
        ensures
            lists_values(
                list_models(r@),
                joined_all(self@.sds_positions, self.stations.entries()),
            ),
            newest_first::<PositionFix>(list_models(r@)),
    {
        let mut m: Table<u32, PositionFix> = copy_table(&self.sds_positions);
        let n: usize = self.stations.len();
        let ghost entries = self.stations.entries();
        let mut i: usize = 0;
        assert(entries.subrange(0, 0) =~= seq![]);
        while i < n
            invariant
                n == entries.len(),
                entries == self.stations.entries(),
                i <= n,
                forall|j: int|
                    0 <= j < entries.len() ==> filed((#[trigger] entries[j]).1.known.positions),
                m@ == joined_all(self@.sds_positions, entries.subrange(0, i as int)),
            decreases n - i,
        {
            let (_, s) = self.stations.entry(i);
            assert(entries[i as int].1 == s@);
            join_station(&mut m, s);
            proof {
                let more = entries.subrange(0, i + 1);
                assert(more.drop_last() =~= entries.subrange(0, i as int));
                assert(more.last() == entries[i as int]);
            }
            i = i + 1;
        }
        assert(entries.subrange(0, i as int) =~= entries);
        sorted_values(&m)
    }

    /// Notes a fix over the Brew channel.
    pub fn record_sds_position(&mut self, issi: u32, place: Place, at_ms: u64, source_text: String)
        ensures
            final(self)@.known() == with_fix(old(self)@.known(), issi, place, at_ms, source_text@),
            final(self)@.stations.dom() == old(self)@.stations.dom(),
            forall|k: Seq<char>| #[trigger]
                old(self)@.stations.dom().contains(k) ==> cleared(
                    old(self)@.stations[k],
                    final(self)@.stations[k],
                    issi,
                ),
            old(self)@.well_filed() ==> final(self)@.well_filed(),
            old(self)@.in_step() ==> final(self)@.in_step(),
    {
        let fix = PositionFix { issi, place, at_ms, bts: BREW_SOURCE.to_owned(), source_text };
        let _ = self.sds_positions.insert(issi, fix);
        let ghost whole = self.stations@;
        let mut left: Table<String, TelemetryBts> = Table::new();
        std::mem::swap(&mut left, &mut self.stations);
        let mut n: usize = left.len();
        while n > 0
            invariant
                n == left@.len(),
                left@.dom().finite(),
                forall|k: Seq<char>| #[trigger]
                    left@.dom().contains(k) ==> whole.dom().contains(k) && left@[k] == whole[k],
                forall|k: Seq<char>| #[trigger]
                    self.stations@.dom().contains(k) <==> whole.dom().contains(k)
                        && !left@.dom().contains(k),
                forall|k: Seq<char>| #[trigger]
                    self.stations@.dom().contains(k) ==> cleared(
                        whole[k],
                        self.stations@[k],
                        issi,
                    ),
                self.sds_positions@ == old(self)@.sds_positions.insert(
                    issi,
                    FixModel { issi, place, at_ms, bts: BREW_SOURCE@, source_text: source_text@ },
                ),
            decreases n,
        {
            match left.pop() {
                Some((k, s)) => {
                    let mut s = s;
                    let ghost was = s@;
                    if s.undecoded_beacons.remove(&issi).is_some() {
                        s.sync_undecoded();
                    }
                    proof {
                        let all = was.known.undecoded_beacons;
                        if !all.dom().contains(issi) {
                            assert(all.remove(issi) =~= all);
                            assert(s@ =~= was);
                        } else {
                            assert(s@ =~= StationModel {
                                known: plotted(was.known, issi),
                                undecoded_beacons_out: s@.undecoded_beacons_out,
                                ..was
                            });
                        }
                    }
                    let _ = self.stations.insert(k, s);
                },
                None => {},
            }
            n = left.len();
        }
        assert(left@.dom() =~= Set::<Seq<char>>::empty());
        proof {
            assert(self@.stations.dom() =~= whole.dom());
            let is = self@.known().stations;
            let want = with_fix(old(self)@.known(), issi, place, at_ms, source_text@).stations;
            assert forall|k: Seq<char>| #[trigger] is.dom().contains(k) implies is[k]
                =~= want[k] by {
                assert(cleared(whole[k], self@.stations[k], issi));
                assert(self@.stations[k].known =~= plotted(whole[k].known, issi));
            }
            assert(is =~= want);
        }
    }

    /// A station connects, in the place of any other of that name. `recent` is what is
    /// remembered of its messages, the newest first.
    pub fn connect(&mut self, id: &str, now: u64, recent: Vec<SdsLogEntry>)
        ensures
            final(self)@.known() == (TelemetryFacts {
                stations: old(self)@.known().stations.insert(
                    id@,
                    StationFacts {
                        recent_sds: list_models(recent@),
                        ..new_station(id@, now)
                    },
                ),
                ..old(self)@.known()
            }),
            final(self)@.stations[id@].in_step(),
            final(self)@.stations.remove(id@) == old(self)@.stations.remove(id@),
            old(self)@.well_filed() ==> final(self)@.well_filed(),
            old(self)@.in_step() ==> final(self)@.in_step(),
    {
        let mut s = TelemetryBts::new(id.to_owned(), now);
        s.remember(recent);
        let _ = self.stations.insert(id.to_owned(), s);
        assert(self@.known().stations =~= old(self)@.known().stations.insert(id@, s@.known));
    }

    /// A station disconnects, and all that it told of is forgotten.
    pub fn disconnect(&mut self, id: &str)
        ensures
            final(self)@ == (TelemetryModel {
                stations: old(self)@.stations.remove(id@),
                ..old(self)@
            }),
            old(self)@.well_filed() ==> final(self)@.well_filed(),
            old(self)@.in_step() ==> final(self)@.in_step(),
    {
        let _ = self.stations.remove(&id.to_owned());
    }

    /// Takes an event of a station, and says whether it wakes the dashboard. Events of a
    /// station that is not connected are dropped.
    pub fn handle_event(
        &mut self,
        id: &str,
        event: TelemetryEvent,
        place: Option<Place>,
        now: u64,
    ) -> (r: bool)
        ensures
            r == (old(self)@.stations.dom().contains(id@) && wakes(event)),
            old(self)@.stations.dom().contains(id@) ==> final(self)@.known() == (TelemetryFacts {
                stations: old(self)@.known().stations.insert(
                    id@,
                    after_event(old(self)@.stations[id@].known, event, place, now),
                ),
                ..old(self)@.known()
            }),
            !old(self)@.stations.dom().contains(id@) ==> final(self)@ == old(self)@,
            final(self)@.stations.remove(id@) == old(self)@.stations.remove(id@),
            old(self)@.well_filed() ==> final(self)@.well_filed(),
            old(self)@.in_step() ==> final(self)@.in_step(),
    {
        let key = id.to_owned();
        match self.stations.remove(&key) {
            None => {
                assert(self@.stations =~= old(self)@.stations);
                false
            },
            Some(s) => {
                let mut s = s;
                let notify = event.notifies();
                s.handle_event(event, place, now);
                let _ = self.stations.insert(key, s);
                assert(self@.known().stations =~= old(self)@.known().stations.insert(
                    id@,
                    s@.known,
                ));
                notify
            },
        }
    }
}

fn copy_table(t: &Table<u32, PositionFix>) -> (r: Table<u32, PositionFix>)
    ensures
        r@ == t@,
{
    let n: usize = t.len();
    let ghost entries = t.entries();
    let mut out: Table<u32, PositionFix> = Table::new();
    let mut i: usize = 0;
    while i < n
        invariant
            n == entries.len(),
            entries == t.entries(),
            i <= n,
            forall|k: u32| #[trigger]
                out@.dom().contains(k) <==> exists|j: int|
                    0 <= j < i && (#[trigger] entries[j]).0 == k,
            forall|k: u32| #[trigger] out@.dom().contains(k) ==> out@[k] == t@[k],
            forall|j: int|
                0 <= j < n ==> t@.dom().contains((#[trigger] entries[j]).0) && t@[entries[j].0]
                    == entries[j].1,
        decreases n - i,
    {
        let (k, v) = t.entry(i);
        let ghost before = out@;
        assert(entries[i as int] == (k@, v@));
        let _ = out.insert(*k, v.copy());
        proof {
            assert forall|q: u32| #[trigger]
                out@.dom().contains(q) <==> exists|j: int|
                0 <= j < i + 1 && (#[trigger] entries[j]).0 == q by {
                if before.dom().contains(q) {
                    let j = choose|j: int| 0 <= j < i && (#[trigger] entries[j]).0 == q;
                    assert(0 <= j < i + 1 && entries[j].0 == q);
                }
                if q == *k {
                    assert(entries[i as int].0 == q);
                }
            }
        }
        i = i + 1;
    }
    assert(out@ =~= t@);
    out
}

/// Of all that is known of a subscriber the newest fix is shown: what the map shows is
/// never older than what any station told, nor than the fix over the Brew channel.
pub proof fn newest_fix_is_shown(
    m: Map<u32, FixModel>,
    stations: Seq<(Seq<char>, StationModel)>,
    k: u32,
)
    ensures
        m.dom().contains(k) ==> joined_all(m, stations).dom().contains(k) && joined_all(
            m,
            stations,
        )[k].at_ms >= m[k].at_ms,
        forall|i: int|
            0 <= i < stations.len() && (#[trigger] stations[i]).1.known.positions.dom().contains(k)
                ==> joined_all(m, stations).dom().contains(k) && joined_all(m, stations)[k].at_ms
                >= stations[i].1.known.positions[k].at_ms,
    decreases stations.len(),
{
    if stations.len() > 0 {
        let init = stations.drop_last();
        newest_fix_is_shown(m, init, k);
        assert forall|i: int|
            0 <= i < stations.len() && (
            #[trigger] stations[i]).1.known.positions.dom().contains(k) implies joined_all(
            m,
            stations,
        ).dom().contains(k) && joined_all(m, stations)[k].at_ms
            >= stations[i].1.known.positions[k].at_ms by {
            if i < stations.len() - 1 {
                assert(init[i] == stations[i]);
            }
        }
    }
}

/// What is shown of a subscriber was told by somebody: the Brew channel or a station,
/// under its own name.
pub proof fn shown_fixes_were_told(
    m: Map<u32, FixModel>,
    stations: Seq<(Seq<char>, StationModel)>,
    k: u32,
)
    requires
        joined_all(m, stations).dom().contains(k),
    ensures
        (m.dom().contains(k) && joined_all(m, stations)[k] == m[k]) || exists|i: int|
            0 <= i < stations.len() && (#[trigger] stations[i]).1.known.positions.dom().contains(k)
                && joined_all(m, stations)[k] == told_by(
                stations[i].1.known.positions[k],
                stations[i].1.known.id,
            ),
    decreases stations.len(),
{
    if stations.len() > 0 {
        let init = stations.drop_last();
        let last = stations.last().1;
        let before = joined_all(m, init);
        if last.known.positions.dom().contains(k) && (!before.dom().contains(k)
            || last.known.positions[k].at_ms >= before[k].at_ms) {
            assert(stations[stations.len() - 1].1 == last);
        } else {
            shown_fixes_were_told(m, init, k);
            if !(m.dom().contains(k) && before[k] == m[k]) {
                let i = choose|i: int|
                    0 <= i < init.len() && (#[trigger] init[i]).1.known.positions.dom().contains(k)
                        && before[k] == told_by(init[i].1.known.positions[k], init[i].1.known.id);
                assert(stations[i] == init[i]);
            }
        }
    }
}

/// A later position of a subscriber takes the place of an earlier one, and a beacon
/// that could not be plotted is forgotten once one can.
pub proof fn positions_replace_and_clear(
    s: StationFacts,
    first: SdsLogModel,
    second: SdsLogModel,
    a: Place,
    b: Place,
)
    requires
        first.source_issi == second.source_issi,
    ensures
        ({
            let t = with_sds(with_sds(s, first, Some(a)), second, Some(b));
            let k = first.source_issi;
            &&& t.positions[k].place == b
            &&& t.positions[k].at_ms == second.at_ms
            &&& !t.undecoded_beacons.dom().contains(k)
            &&& t.positions.dom() == s.positions.dom().insert(k)
        }),
{
    let t = with_sds(with_sds(s, first, Some(a)), second, Some(b));
    assert(t.positions.dom() =~= s.positions.dom().insert(first.source_issi));
}

/// A location report without coordinates puts nothing on the map.
pub proof fn empty_beacons_are_not_plotted(s: StationFacts, e: SdsLogModel)
    ensures
        with_sds(s, e, None).positions == s.positions,
        e.protocol_id == PID_LIP ==> with_sds(s, e, None).undecoded_beacons.dom().contains(
            e.source_issi,
        ),
{
}

/// Whether a station is the same one, with an event just now.
pub open spec fn as_before(was: StationFacts, is: StationFacts, now: u64) -> bool {
    &&& is.id == was.id
    &&& is.connected_at_ms == was.connected_at_ms
    &&& is.last_event_at_ms == now
}

/// A station's registrations are those it told of: a registration adds the subscriber, a
/// deregistration and a timeout take it out, and no other subscriber is touched.
pub proof fn registrations_follow_the_events(
    s: StationFacts,
    issi: u32,
    place: Option<Place>,
    now: u64,
)
    ensures
        ({
            let on = after_event(s, TelemetryEvent::MsRegistration { issi }, place, now);
            let off = after_event(s, TelemetryEvent::MsDeregistration { issi }, place, now);
            let lost = after_event(s, TelemetryEvent::MsTimeoutDrop { issi }, place, now);
            &&& forall|i: u32| #[trigger]
                on.registrations.contains(i) <==> s.registrations.contains(i) || i == issi
            &&& forall|i: u32| #[trigger]
                off.registrations.contains(i) <==> s.registrations.contains(i) && i != issi
            &&& off == lost
            &&& on == (StationFacts {
                last_event_at_ms: now,
                registrations: on.registrations,
                ..s
            })
            &&& off == (StationFacts {
                last_event_at_ms: now,
                registrations: off.registrations,
                ..s
            })
        }),
{
}

/// A station's calls are those that started and have not ended: a group call under its
/// group and its caller, an individual call under the two subscribers. A call that ends is
/// gone, and no other call is touched.
pub proof fn calls_follow_the_events(
    s: StationFacts,
    call_id: u16,
    source: u32,
    target: u32,
    simplex: bool,
    carrier_num: u16,
    ts: u8,
    peer_carrier_num: Option<u16>,
    peer_ts: Option<u8>,
    priority: u8,
    place: Option<Place>,
    now: u64,
)
    ensures
        ({
            let group = after_event(
                s,
                TelemetryEvent::GroupCallStarted {
                    call_id,
                    gssi: target,
                    caller_issi: source,
                    carrier_num,
                    ts,
                    priority,
                },
                place,
                now,
            );
            let single = after_event(
                s,
                TelemetryEvent::IndividualCallStarted {
                    call_id,
                    calling_issi: source,
                    called_issi: target,
                    simplex,
                    carrier_num,
                    ts,
                    peer_carrier_num,
                    peer_ts,
                    priority,
                },
                place,
                now,
            );
            let group_over = after_event(
                group,
                TelemetryEvent::GroupCallEnded { call_id, gssi: target },
                place,
                now,
            );
            let single_over = after_event(
                single,
                TelemetryEvent::IndividualCallEnded { call_id },
                place,
                now,
            );
            let c = group.active_calls[call_id];
            &&& group.active_calls.dom() == s.active_calls.dom().insert(call_id)
            &&& c.call_id == call_id && c.is_group && c.gssi_or_called == target && c.source_issi
                == source && c.carrier_num == carrier_num && c.ts == ts && c.priority == priority
                && c.started_at_ms == now
            &&& single.active_calls.dom() == s.active_calls.dom().insert(call_id)
            &&& single.active_calls[call_id] == (TelemetryCall { is_group: false, ..c })
            &&& forall|other: u16|
                other != call_id && #[trigger] s.active_calls.dom().contains(other)
                    ==> group.active_calls[other] == s.active_calls[other]
                    && single.active_calls[other] == s.active_calls[other]
            &&& group_over.active_calls == s.active_calls.remove(call_id)
            &&& single_over.active_calls == s.active_calls.remove(call_id)
            &&& group.registrations == s.registrations && group.recent_sds == s.recent_sds
                && group.positions == s.positions && group.emergencies == s.emergencies
        }),
{
    let group = after_event(
        s,
        TelemetryEvent::GroupCallStarted {
            call_id,
            gssi: target,
            caller_issi: source,
            carrier_num,
            ts,
            priority,
        },
        place,
        now,
    );
    assert(group.active_calls.dom() =~= s.active_calls.dom().insert(call_id));
    assert(group.active_calls.remove(call_id) =~= s.active_calls.remove(call_id));
    let single = s.active_calls.insert(
        call_id,
        TelemetryCall { is_group: false, ..group.active_calls[call_id] },
    );
    assert(single.dom() =~= s.active_calls.dom().insert(call_id));
    assert(single.remove(call_id) =~= s.active_calls.remove(call_id));
}

/// An alarm of a subscriber stands until it is cancelled, and no other alarm is touched;
/// the link of a station and a subscriber's signal are as last told.
pub proof fn alarms_and_readings_follow_the_events(
    s: StationFacts,
    issi: u32,
    dest_ssi: u32,
    rssi: u32,
    connected: bool,
    server_version: u8,
    place: Option<Place>,
    now: u64,
)
    ensures
        ({
            let alarm = after_event(
                s,
                TelemetryEvent::EmergencyAlarm { source_issi: issi, dest_ssi },
                place,
                now,
            );
            let calm = after_event(
                s,
                TelemetryEvent::EmergencyCancel { source_issi: issi },
                place,
                now,
            );
            let heard = after_event(
                s,
                TelemetryEvent::MsRssi { issi, rssi_dbfs: rssi },
                place,
                now,
            );
            let linked = after_event(
                s,
                TelemetryEvent::BrewConnected { connected, server_version },
                place,
                now,
            );
            &&& forall|i: u32| #[trigger]
                alarm.emergencies.contains(i) <==> s.emergencies.contains(i) || i == issi
            &&& forall|i: u32| #[trigger]
                calm.emergencies.contains(i) <==> s.emergencies.contains(i) && i != issi
            &&& heard.ms_rssi == s.ms_rssi.insert(issi, rssi)
            &&& linked.backhaul_connected == Some(connected)
            &&& as_before(s, alarm, now) && as_before(s, calm, now) && as_before(s, heard, now)
                && as_before(s, linked, now)
            &&& linked.emergencies == s.emergencies
            &&& heard.emergencies == s.emergencies
        }),
{
}

/// A message is the newest in the log of its station, which keeps the last fifty. Where it
/// tells of a place, its sender is there and counts as plotted; a location report without
/// one counts as a beacon of its sender that cannot be plotted, one more than before.
pub proof fn messages_tell_of_their_sender(s: StationFacts, e: SdsLogModel, place: Place)
    ensures
        ({
            let told = with_sds(s, e, Some(place));
            let mute = with_sds(s, e, None);
            let k = e.source_issi;
            &&& told.recent_sds == mute.recent_sds
            &&& told.recent_sds[0] == e
            &&& forall|i: int|
                0 < i < told.recent_sds.len() ==> #[trigger] told.recent_sds[i] == s.recent_sds[i
                    - 1]
            &&& told.recent_sds.len() == (if s.recent_sds.len() < 50 {
                s.recent_sds.len() + 1
            } else {
                50
            })
            &&& told.positions[k].issi == k
            &&& told.positions[k].place == place
            &&& told.positions[k].at_ms == e.at_ms
            &&& told.positions[k].source_text == e.text
            &&& told.undecoded_beacons == s.undecoded_beacons.remove(k)
            &&& forall|other: u32|
                other != k && #[trigger] s.positions.dom().contains(other)
                    ==> told.positions.dom().contains(other) && told.positions[other]
                    == s.positions[other]
            &&& mute.positions == s.positions
            &&& e.protocol_id != 10 ==> mute.undecoded_beacons == s.undecoded_beacons
            &&& e.protocol_id == 10 ==> {
                &&& mute.undecoded_beacons.dom() == s.undecoded_beacons.dom().insert(k)
                &&& mute.undecoded_beacons[k].at_ms == e.at_ms
                &&& !s.undecoded_beacons.dom().contains(k) ==> mute.undecoded_beacons[k].issi == k
                    && mute.undecoded_beacons[k].count == 1
                &&& s.undecoded_beacons.dom().contains(k) && s.undecoded_beacons[k].count < u32::MAX
                    ==> mute.undecoded_beacons[k].count == s.undecoded_beacons[k].count + 1
                &&& forall|other: u32|
                    other != k && #[trigger] s.undecoded_beacons.dom().contains(other)
                        ==> mute.undecoded_beacons[other] == s.undecoded_beacons[other]
            }
        }),
{
    let mute = with_sds(s, e, None);
    if e.protocol_id == PID_LIP {
        assert(mute.undecoded_beacons.dom() =~= s.undecoded_beacons.dom().insert(e.source_issi));
    }
}

/// A fix over the Brew channel is where the subscriber is, and no station counts a beacon
/// of it as one that cannot be plotted any more; other subscribers are not touched.
pub proof fn brew_fixes_are_plotted(
    t: TelemetryFacts,
    issi: u32,
    place: Place,
    at_ms: u64,
    source_text: Seq<char>,
)
    ensures
        ({
            let after = with_fix(t, issi, place, at_ms, source_text);
            &&& after.sds_positions.dom() == t.sds_positions.dom().insert(issi)
            &&& after.sds_positions[issi].issi == issi
            &&& after.sds_positions[issi].place == place
            &&& after.sds_positions[issi].at_ms == at_ms
            &&& after.sds_positions[issi].source_text == source_text
            &&& forall|other: u32|
                other != issi && #[trigger] t.sds_positions.dom().contains(other)
                    ==> after.sds_positions[other] == t.sds_positions[other]
            &&& after.stations.dom() == t.stations.dom()
            &&& forall|b: Seq<char>| #[trigger]
                t.stations.dom().contains(b) ==> after.stations[b] == (StationFacts {
                    undecoded_beacons: t.stations[b].undecoded_beacons.remove(issi),
                    ..t.stations[b]
                })
        }),
{
    let after = with_fix(t, issi, place, at_ms, source_text);
    assert(after.sds_positions.dom() =~= t.sds_positions.dom().insert(issi));
    assert(after.stations.dom() =~= t.stations.dom());
}

/// The dashboard is woken by what happens, and not by readings that come every few
/// seconds.
pub proof fn readings_do_not_wake(issi: u32, rssi: u32, carrier_num: u16, ts: u8, e: TelemetryEvent)
    ensures
        !wakes(TelemetryEvent::MsRssi { issi, rssi_dbfs: rssi }),
        !wakes(TelemetryEvent::TsVoiceActivity { carrier_num, ts, speaker_issi: Some(issi) }),
        !wakes(TelemetryEvent::TxVisual),
        !wakes(TelemetryEvent::SysHealth),
        !wakes(TelemetryEvent::SdrHealth),
        !wakes(TelemetryEvent::TxQuality),
        e is MsRegistration || e is MsDeregistration || e is MsTimeoutDrop || e is GroupCallStarted
            || e is GroupCallEnded || e is IndividualCallStarted || e is IndividualCallEnded || e
            is SdsLog || e is EmergencyAlarm || e is EmergencyCancel || e is BrewConnected || e
            is HealthSnapshot ==> wakes(e),
{
}

/// The lists that are shown of a station hold what is known of it, once each: positions
/// and beacons with the newest first, registrations in growing order, and their number.
pub proof fn shown_lists_are_in_order(s: StationModel, i: int, j: int, k: u32)
    requires
        s.in_step(),
    ensures
        s.registration_count == s.known.registrations.len(),
        0 <= i < j < s.registrations_list.len() ==> s.registrations_list[i]
            < s.registrations_list[j],
        s.registrations_list.contains(k) <==> s.known.registrations.contains(k),
        0 <= i < j < s.positions_out.len() ==> s.positions_out[i].at_ms >= s.positions_out[j].at_ms,
        0 <= i < s.positions_out.len() ==> s.known.positions.dom().contains(s.positions_out[i].issi)
            && s.positions_out[i] == s.known.positions[s.positions_out[i].issi],
        s.known.positions.dom().contains(k) ==> s.positions_out.contains(s.known.positions[k]),
        0 <= i < j < s.undecoded_beacons_out.len() ==> s.undecoded_beacons_out[i].at_ms
            >= s.undecoded_beacons_out[j].at_ms,
        s.known.undecoded_beacons.dom().contains(k) ==> s.undecoded_beacons_out.contains(
            s.known.undecoded_beacons[k],
        ),
        s.recent_sds_out == s.known.recent_sds,
{
    assert(s.registrations_list.to_set().contains(k) <==> s.known.registrations.contains(k));
    let keys = choose|keys: Seq<u32>| #[trigger]
        lists_in_order(s.positions_out, s.known.positions, keys);
    if 0 <= i < s.positions_out.len() {
        assert(s.positions_out[i] == s.known.positions[keys[i]]);
        assert(keys.to_set().contains(keys[i]));
        assert(s.known.positions.dom().contains(keys[i]));
        if 0 <= j < s.positions_out.len() {
            assert(MsPosition::time(s.positions_out[i]) == s.positions_out[i].at_ms);
            assert(MsPosition::time(s.positions_out[j]) == s.positions_out[j].at_ms);
        }
    }
    if s.known.positions.dom().contains(k) {
        assert(keys.to_set().contains(k));
        let n = choose|n: int| 0 <= n < keys.len() && keys[n] == k;
        assert(s.positions_out[n] == s.known.positions[k]);
    }
    let others = choose|others: Seq<u32>| #[trigger]
        lists_in_order(s.undecoded_beacons_out, s.known.undecoded_beacons, others);
    if 0 <= i < j < s.undecoded_beacons_out.len() {
        assert(UndecodedBeacon::time(s.undecoded_beacons_out[i])
            == s.undecoded_beacons_out[i].at_ms);
        assert(UndecodedBeacon::time(s.undecoded_beacons_out[j])
            == s.undecoded_beacons_out[j].at_ms);
    }
    if s.known.undecoded_beacons.dom().contains(k) {
        assert(others.to_set().contains(k));
        let n = choose|n: int| 0 <= n < others.len() && others[n] == k;
        assert(s.undecoded_beacons_out[n] == s.known.undecoded_beacons[k]);
    }
}

/// Nothing is known of a station that has just connected but its name and when it did.
pub proof fn new_stations_are_blank(id: Seq<char>, now: u64, k: u32, c: u16)
    ensures
        ({
            let s = new_station(id, now);
            &&& s.id == id && s.connected_at_ms == now && s.last_event_at_ms == now
            &&& s.health is None && s.backhaul_connected is None
            &&& !s.registrations.contains(k) && !s.emergencies.contains(k)
            &&& !s.active_calls.dom().contains(c)
            &&& !s.positions.dom().contains(k) && !s.undecoded_beacons.dom().contains(k)
            &&& !s.ms_rssi.dom().contains(k)
            &&& s.recent_sds.len() == 0
        }),
{
}

/// A place counts as not given exactly when both its coordinates are zero, whatever the
/// sign bits of the zeros.
pub proof fn places_at_zero_are_not_given(p: Place)
    ensures
        p.unset() <==> p.lat as int % 0x8000_0000_0000_0000 == 0 && p.lon as int
            % 0x8000_0000_0000_0000 == 0,
{
}

/// Clearing a beacon that could not be plotted takes it out of what is known and of what
/// is shown of a station, and leaves the rest of the station as it was.
pub proof fn cleared_beacons_are_gone(before: StationModel, after: StationModel, issi: u32)
    requires
        cleared(before, after, issi),
    ensures
        !after.known.undecoded_beacons.dom().contains(issi),
        after.known == (StationFacts {
            undecoded_beacons: before.known.undecoded_beacons.remove(issi),
            ..before.known
        }),
        after.positions_out == before.positions_out,
        after.registrations_list == before.registrations_list,
        after.recent_sds_out == before.recent_sds_out,
        before.in_step() ==> after.in_step(),
{
    if !before.known.undecoded_beacons.dom().contains(issi) {
        assert(before.known.undecoded_beacons.remove(issi) =~= before.known.undecoded_beacons);
    }
}

} // verus!

use brew_server::registrations::{RegKind, RegistrationLog, BREW_SOURCE};
use brew_server::sdslog::SdsLog;
use brew_server::store::StoredRecord;
use brew_server::telemetry::{
    HealthLevel, HealthSnapshot, Place, SdsLogEntry, TelemetryBts, TelemetryEvent, TelemetryState,
};

fn sds(source_issi: u32, protocol_id: u8, text: &str, at_ms: u64) -> SdsLogEntry {
    SdsLogEntry {
        at_ms,
        direction: "rx".to_string(),
        source_issi,
        dest_issi: 0,
        is_group: false,
        protocol_id,
        text: text.to_string(),
    }
}

fn place(lat: f64, lon: f64) -> Option<Place> {
    Some(Place { lat: lat.to_bits(), lon: lon.to_bits() })
}

#[test]
fn textual_position_beacon_is_stored() {
    let mut bts = TelemetryBts::new("bts-1".to_string(), 0);
    bts.push_sds(sds(1001, 3, "44.4353, 26.1092", 100), place(44.4353, 26.1092));
    assert_eq!(bts.positions.len(), 1);
    let p = bts.positions.get(&1001).unwrap();
    let (lat, lon) = (f64::from_bits(p.place.lat), f64::from_bits(p.place.lon));
    assert!((lat - 44.4353).abs() < 0.01 && (lon - 26.1092).abs() < 0.01);
    assert_eq!(bts.positions_out.len(), 1);
}

#[test]
fn empty_lip_beacon_stores_no_position() {
    let mut bts = TelemetryBts::new("bts-1".to_string(), 0);
    bts.push_sds(sds(1001, 10, "", 100), None);
    assert!(bts.positions.is_empty());
    assert!(bts.positions_out.is_empty());
}

#[test]
fn latest_position_replaces_older_for_same_issi() {
    let mut bts = TelemetryBts::new("bts-1".to_string(), 0);
    bts.push_sds(sds(1001, 3, "44.00, 26.00", 100), place(44.0, 26.0));
    bts.push_sds(sds(1001, 3, "45.00, 27.00", 200), place(45.0, 27.0));
    assert_eq!(bts.positions.len(), 1);
    let p = bts.positions.get(&1001).unwrap();
    assert!((f64::from_bits(p.place.lat) - 45.0).abs() < 0.01, "should keep newest");
    assert_eq!(p.at_ms, 200);
}

#[test]
fn positions_across_stations_are_aggregated_and_tagged() {
    let mut state = TelemetryState::default();
    let mut a = TelemetryBts::new("BTS-A".to_string(), 0);
    a.push_sds(sds(1, 3, "44.0, 26.0", 100), place(44.0, 26.0));
    let mut b = TelemetryBts::new("BTS-B".to_string(), 0);
    b.push_sds(sds(2, 3, "45.0, 27.0", 200), place(45.0, 27.0));
    state.stations.insert("BTS-A".to_string(), a);
    state.stations.insert("BTS-B".to_string(), b);
    let fixes = state.positions();
    assert_eq!(fixes.len(), 2);
    assert_eq!(fixes[0].issi, 2);
    assert_eq!(fixes[0].bts, "BTS-B");
    assert!(fixes.iter().any(|f| f.issi == 1 && f.bts == "BTS-A"));
}

#[test]
fn sync_registrations_sorts_and_counts() {
    let mut bts = TelemetryBts::new("bts-1".to_string(), 0);
    bts.registrations.insert(300);
    bts.registrations.insert(100);
    bts.registrations.insert(200);
    bts.sync_registrations();
    assert_eq!(bts.registration_count, 3);
    assert_eq!(bts.registrations_list, vec![100, 200, 300]);
}

#[test]
fn sync_registrations_after_removal() {
    let mut bts = TelemetryBts::new("bts-1".to_string(), 0);
    for issi in [10u32, 20, 30] {
        bts.registrations.insert(issi);
    }
    bts.sync_registrations();
    bts.registrations.remove(&20);
    bts.sync_registrations();
    assert_eq!(bts.registration_count, 2);
    assert_eq!(bts.registrations_list, vec![10, 30]);
}

#[test]
fn events_reach_their_station() {
    let mut state = TelemetryState::new();
    state.connect("BTS-A", 10, Vec::new());
    assert!(state.handle_event("BTS-A", TelemetryEvent::MsRegistration { issi: 90 }, None, 20));
    assert!(!state.handle_event("BTS-B", TelemetryEvent::MsRegistration { issi: 91 }, None, 20));
    assert_eq!(state.snapshot().len(), 1);
    let bts = state.snapshot()[0];
    assert_eq!(bts.registrations_list, vec![90]);
    assert_eq!((bts.connected_at_ms, bts.last_event_at_ms), (10, 20));
    state.handle_event("BTS-A", TelemetryEvent::MsDeregistration { issi: 90 }, None, 21);
    assert!(state.snapshot()[0].registrations_list.is_empty());
    state.disconnect("BTS-A");
    assert!(state.snapshot().is_empty());
}

#[test]
fn calls_emergencies_and_health_are_kept() {
    let mut bts = TelemetryBts::new("b".to_string(), 0);
    bts.handle_event(
        TelemetryEvent::GroupCallStarted {
            call_id: 3,
            gssi: 7,
            caller_issi: 90,
            carrier_num: 1,
            ts: 2,
            priority: 4,
        },
        None,
        50,
    );
    let c = bts.active_calls.get(&3).unwrap();
    assert!(c.is_group);
    assert_eq!((c.gssi_or_called, c.source_issi, c.started_at_ms), (7, 90, 50));
    bts.handle_event(TelemetryEvent::GroupCallEnded { call_id: 3, gssi: 7 }, None, 51);
    assert!(bts.active_calls.is_empty());
    bts.handle_event(TelemetryEvent::EmergencyAlarm { source_issi: 90, dest_ssi: 1 }, None, 52);
    assert!(bts.emergencies.contains(&90));
    bts.handle_event(TelemetryEvent::EmergencyCancel { source_issi: 90 }, None, 53);
    assert!(!bts.emergencies.contains(&90));
    bts.handle_event(
        TelemetryEvent::HealthSnapshot(HealthSnapshot {
            overall: HealthLevel::Good,
            domains: Vec::new(),
            last_action: None,
            uptime_secs: 9,
        }),
        None,
        54,
    );
    assert_eq!(bts.health.as_ref().unwrap().uptime_secs, 9);
    bts.handle_event(
        TelemetryEvent::BrewConnected { connected: true, server_version: 1 },
        None,
        55,
    );
    assert_eq!(bts.backhaul_connected, Some(true));
}

#[test]
fn undecoded_beacons_are_counted() {
    let mut bts = TelemetryBts::new("b".to_string(), 0);
    bts.push_sds(sds(1001, 10, "", 100), None);
    bts.push_sds(sds(1001, 10, "", 200), None);
    assert_eq!(bts.undecoded_beacons_out.len(), 1);
    assert_eq!(bts.undecoded_beacons_out[0].count, 2);
    bts.push_sds(sds(1001, 10, "x", 300), place(1.0, 2.0));
    assert!(bts.undecoded_beacons.is_empty(), "a fix clears the entry");
}

#[test]
fn newest_fix_of_either_source_is_shown() {
    let mut state = TelemetryState::new();
    state.connect("A", 0, Vec::new());
    state.handle_event(
        "A",
        TelemetryEvent::SdsLog {
            direction: "rx".into(),
            source_issi: 5,
            dest_issi: 0,
            is_group: false,
            protocol_id: 3,
            text: "t".into(),
        },
        place(1.0, 1.0),
        100,
    );
    state.record_sds_position(5, place(2.0, 2.0).unwrap(), 200, "s".into());
    let fixes = state.positions();
    assert_eq!(fixes.len(), 1);
    assert_eq!(f64::from_bits(fixes[0].place.lat), 2.0);
}

#[test]
fn telemetry_messages_survive_a_restart() {
    let mut log = SdsLog::new();
    let mut history = Vec::new();
    for i in 0..60u64 {
        let rec = log.note("BTS-A", sds(i as u32, 3, "hello", i));
        history.push(StoredRecord::SdsTelemetry(rec));
    }
    history.push(StoredRecord::SdsReport { uuid: 1 });
    let after = SdsLog::with_store(&history);
    let recent = after.recent("BTS-A");
    assert_eq!(recent.len(), 50);
    assert_eq!(recent[0].at_ms, 59);
    assert_eq!(recent.len(), log.recent("BTS-A").len());
    assert!(after.recent("BTS-B").is_empty());
    let mut state = TelemetryState::new();
    state.connect("BTS-A", 100, recent);
    assert_eq!(state.snapshot()[0].recent_sds_out[0].at_ms, 59);
}

#[test]
fn signal_strengths_are_kept() {
    let mut bts = TelemetryBts::new("b".to_string(), 0);
    for (issi, dbfs) in [(90, -41.5f32), (91, -60.0), (90, -43.25)] {
        let event = TelemetryEvent::MsRssi { issi, rssi_dbfs: dbfs.to_bits() };
        assert!(!event.notifies());
        bts.handle_event(event, None, 5);
    }
    assert_eq!(bts.ms_rssi.len(), 2);
    assert_eq!(f32::from_bits(*bts.ms_rssi.get(&90).unwrap()), -43.25);
    assert_eq!(f32::from_bits(*bts.ms_rssi.get(&91).unwrap()), -60.0);
}

#[test]
fn registrations_are_logged() {
    let mut log = RegistrationLog::new();
    log.note_event("A", &TelemetryEvent::MsRegistration { issi: 1 }, 10);
    log.note(BREW_SOURCE, 2, RegKind::Register, 20);
    log.note_event("A", &TelemetryEvent::MsTimeoutDrop { issi: 1 }, 30);
    log.note_event("A", &TelemetryEvent::MsRssi { issi: 1, rssi_dbfs: 0 }, 40);
    let rows = log.registration_log();
    let seen: Vec<(u64, &str, u32, &str)> =
        rows.iter().map(|r| (r.at_ms, r.bts.as_str(), r.issi, r.kind.as_str())).collect();
    assert_eq!(
        seen,
        vec![(30, "A", 1, "timeout"), (20, "brew", 2, "register"), (10, "A", 1, "register")]
    );
    for i in 0..100 {
        log.note("A", i, RegKind::Deregister, 50);
    }
    assert_eq!(log.registration_log().len(), 51, "the last fifty of each source");
    log.forget("A");
    assert_eq!(log.registration_log().len(), 1);
}

#[test]
fn shown_lists_keep_step_in_every_station() {
    let mut state = TelemetryState::new();
    state.connect("A", 1, vec![sds(7, 3, "earlier", 0)]);
    state.connect("B", 1, Vec::new());
    assert_eq!(state.snapshot().iter().map(|s| s.recent_sds_out.len()).sum::<usize>(), 1);
    for id in ["A", "B"] {
        state.handle_event(id, TelemetryEvent::MsRegistration { issi: 30 }, None, 2);
        state.handle_event(id, TelemetryEvent::MsRegistration { issi: 20 }, None, 3);
        let beacon = TelemetryEvent::SdsLog {
            direction: "rx".into(),
            source_issi: 20,
            dest_issi: 0,
            is_group: false,
            protocol_id: 10,
            text: String::new(),
        };
        state.handle_event(id, beacon, None, 4);
    }
    for s in state.snapshot() {
        assert_eq!((s.registration_count, s.registrations_list.as_slice()), (2, &[20, 30][..]));
        assert_eq!(s.undecoded_beacons_out.len(), 1);
        assert_eq!(s.recent_sds_out.len(), s.recent_sds.len());
    }
    state.record_sds_position(20, place(1.0, 2.0).unwrap(), 5, String::new());
    for s in state.snapshot() {
        assert!(s.undecoded_beacons_out.is_empty());
        assert_eq!(s.registrations_list, vec![20, 30]);
    }
    let text = TelemetryEvent::SdsLog {
        direction: "rx".into(),
        source_issi: 30,
        dest_issi: 0,
        is_group: false,
        protocol_id: 3,
        text: "45.0, 27.0".into(),
    };
    state.handle_event("B", text, place(45.0, 27.0), 6);
    let shown: Vec<usize> = state.snapshot().iter().map(|s| s.positions_out.len()).collect();
    assert_eq!(shown.iter().sum::<usize>(), 1);
}

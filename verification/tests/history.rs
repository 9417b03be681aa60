use brew_server::history::{count, print_text, read_args, short, summary, Request};
use brew_server::monitor::{CallRecord, Monitor, SdsRecord};
use brew_server::store::{frame, read_frames, replay, StoredRecord};
use brew_server::telemetry::{SdsLogEntry, SdsTelemetryRecord};
use uuid::Uuid;

#[test]
fn history_survives_restart_via_store() {
    let uuid_call = Uuid::new_v4().as_u128();
    let uuid_sds = Uuid::new_v4().as_u128();
    let mut log: Vec<StoredRecord> = Vec::new();
    {
        let mut m = Monitor::with_store(Vec::new());
        m.call_started(uuid_call, "group", 90, 1001, 0, 10);
        log.push(StoredRecord::Call(m.call_ended(uuid_call, 20).unwrap()));
        log.push(StoredRecord::Sds(m.sds(uuid_sds, 90, 100, 30)));
        m.sds_report(uuid_sds);
        log.push(StoredRecord::SdsReport { uuid: uuid_sds });
        let snap = m.snapshot(0, 0, 0);
        assert_eq!(snap.total_calls, 1);
        assert_eq!(snap.total_sds, 1);
    }
    {
        let m = Monitor::with_store(log);
        let snap = m.snapshot(0, 0, 0);
        assert_eq!(snap.total_calls, 1, "call count restored");
        assert_eq!(snap.total_sds, 1, "sds count restored");
        assert_eq!(snap.recent_calls.len(), 1);
        assert_eq!(snap.recent_sds.len(), 1);
        assert_eq!(snap.recent_sds[0].reports, 1, "sds report replayed");
    }
}

fn call(v: u64) -> CallRecord {
    CallRecord {
        uuid: Uuid::new_v4().as_u128(),
        kind: "group".into(),
        source: 90,
        destination: 1001,
        priority: 0,
        started_at_ms: v,
        ended_at_ms: Some(v + 5),
        voice_frames: 3,
    }
}

fn sds(v: u64) -> SdsRecord {
    SdsRecord {
        uuid: Uuid::new_v4().as_u128(),
        source: 90,
        destination: 100,
        at_ms: v,
        reports: 0,
    }
}

#[test]
fn append_and_replay_roundtrip() {
    let rep_uuid = Uuid::new_v4().as_u128();
    let written = vec![
        StoredRecord::Call(call(1)),
        StoredRecord::Sds(sds(2)),
        StoredRecord::SdsReport { uuid: rep_uuid },
    ];
    // The body of a record stands for its place in the list.
    let mut log = Vec::new();
    for i in 0..written.len() {
        log.extend_from_slice(&frame(&[i as u8]));
    }
    let decoded: Vec<Option<StoredRecord>> =
        read_frames(&log).iter().map(|b| written.get(b[0] as usize).cloned()).collect();
    let recs = replay(decoded);
    assert_eq!(recs.len(), 3);
    assert!(matches!(recs[0], StoredRecord::Call(_)));
    assert!(matches!(recs[1], StoredRecord::Sds(_)));
    assert!(matches!(recs[2], StoredRecord::SdsReport { uuid } if uuid == rep_uuid));
}

#[test]
fn appends_persist_across_reopen() {
    let mut log = frame(b"one");
    log.extend_from_slice(&frame(b"two"));
    let recs = read_frames(&log);
    assert_eq!(recs.len(), 2, "append mode must not truncate");
    assert_eq!(recs, vec![b"one".to_vec(), b"two".to_vec()]);
}

#[test]
fn torn_trailing_record_is_ignored() {
    let mut log = frame(b"one");
    log.extend_from_slice(&9999u32.to_le_bytes());
    log.extend_from_slice(&[1, 2, 3]);
    let recs = read_frames(&log);
    assert_eq!(recs.len(), 1, "should recover the one complete record and stop");
}

#[test]
fn missing_file_replays_empty() {
    assert!(read_frames(&[]).is_empty());
    assert!(replay(Vec::new()).is_empty());
}

#[test]
fn replay_stops_at_what_cannot_be_read() {
    let recs = replay(vec![
        Some(StoredRecord::Call(call(1))),
        None,
        Some(StoredRecord::Call(call(2))),
    ]);
    assert_eq!(recs.len(), 1);
}

#[test]
fn frames_carry_their_length() {
    assert_eq!(frame(b"ab"), vec![2, 0, 0, 0, b'a', b'b']);
}

#[test]
fn lists_are_bounded() {
    let mut m = Monitor::new();
    for i in 0..250u64 {
        m.sds(i as u128, 1, 2, i);
    }
    assert_eq!(m.sds.len(), 200);
    let snap = m.snapshot(1, 2, 3);
    assert_eq!(snap.recent_sds.len(), 50);
    assert_eq!(snap.recent_sds[0].at_ms, 249, "newest first");
    assert_eq!(snap.total_sds, 250);
    assert_eq!((snap.connected_bluestations, snap.subscribers, snap.groups), (1, 2, 3));
}

#[test]
fn voice_frames_are_counted() {
    let mut m = Monitor::new();
    let first = m.call_started(7, "private", 1, 2, 3, 100);
    assert_eq!(first.ended_at_ms, None);
    m.voice_frame(7);
    m.voice_frame(8);
    let rec = m.call_ended(7, 200).unwrap();
    assert_eq!(rec.voice_frames, 1);
    assert_eq!(rec.ended_at_ms, Some(200));
    assert_eq!(m.voice_frames, 2);
    assert!(m.call_ended(7, 201).is_none());
}

fn args(list: &[&str]) -> Vec<String> {
    list.iter().map(|s| s.to_string()).collect()
}

#[test]
fn the_command_line_is_read() {
    assert!(matches!(read_args(&args(&["--help"])), Request::Help));
    assert!(matches!(read_args(&args(&[])), Request::NoPath));
    assert!(matches!(read_args(&args(&["a", "b"])), Request::Unexpected(x) if x == "b"));
    assert!(matches!(
        read_args(&args(&["--json", "log.bin"])),
        Request::Show { path, json: true } if path == "log.bin"
    ));
    assert!(matches!(
        read_args(&args(&["log.bin"])),
        Request::Show { path, json: false } if path == "log.bin"
    ));
}

#[test]
fn records_are_printed() {
    let id: u128 = 0x0123_4567_89ab_cdef_0123_4567_89ab_cdef;
    assert_eq!(short(id), "01234567");
    let mut c = call(0);
    c.uuid = id;
    let line = print_text(&StoredRecord::Call(c)).unwrap();
    assert!(line.contains("1970-01-01 00:00:00"));
    assert!(line.contains("01234567"));
    let line = print_text(&StoredRecord::SdsReport { uuid: id }).unwrap();
    assert!(line.contains("01234567"));
    let other = StoredRecord::SdsTelemetry(SdsTelemetryRecord {
        bts: "A".into(),
        entry: SdsLogEntry {
            at_ms: 1,
            direction: "rx".into(),
            source_issi: 1,
            dest_issi: 2,
            is_group: false,
            protocol_id: 3,
            text: "x".into(),
        },
    });
    assert!(print_text(&other).is_none());
}

#[test]
fn records_are_counted() {
    let recs = vec![
        StoredRecord::Call(call(1)),
        StoredRecord::Sds(sds(2)),
        StoredRecord::Sds(sds(3)),
        StoredRecord::SdsReport { uuid: 1 },
    ];
    let c = count(&recs);
    assert_eq!((c.records, c.calls, c.sds, c.reports), (4, 1, 2, 1));
    let s = summary(c);
    for n in ["4", "1", "2"] {
        assert!(s.contains(n));
    }
}

#[test]
fn records_behind_telemetry_are_counted() {
    let told = StoredRecord::SdsTelemetry(SdsTelemetryRecord {
        bts: "A".into(),
        entry: SdsLogEntry {
            at_ms: 1,
            direction: "rx".into(),
            source_issi: 1,
            dest_issi: 2,
            is_group: false,
            protocol_id: 3,
            text: "x".into(),
        },
    });
    let c = count(&[told, StoredRecord::SdsReport { uuid: 1 }, StoredRecord::Call(call(1))]);
    assert_eq!((c.records, c.calls, c.sds, c.reports), (3, 1, 0, 1));
}

#[test]
fn replay_drops_a_torn_record() {
    let written = [StoredRecord::Sds(sds(1)), StoredRecord::SdsReport { uuid: 9 }];
    for torn in [vec![], vec![3], vec![3, 0, 0], vec![3, 0, 0, 0], vec![3, 0, 0, 0, 1, 1]] {
        let mut log = frame(&[0]);
        log.extend_from_slice(&frame(&[1]));
        log.extend_from_slice(&torn);
        let decoded = read_frames(&log).iter().map(|b| written.get(b[0] as usize).cloned()).collect();
        let recs = replay(decoded);
        assert_eq!(recs.len(), 2);
        assert!(matches!(recs[1], StoredRecord::SdsReport { uuid: 9 }));
    }
}

#[test]
fn encoded_records_are_replayed() {
    // Sequence numbers in the encoding that the program writes its records in.
    let mut log = Vec::new();
    for n in [7u128, 8, 9] {
        log.extend_from_slice(&frame(&bincode::serialize(&(2u32, n)).unwrap()));
    }
    log.extend_from_slice(&[16, 0, 0, 0, 1, 2]);
    let decoded = read_frames(&log)
        .iter()
        .map(|b| bincode::deserialize::<(u32, u128)>(b).ok())
        .map(|r| r.map(|(_, uuid)| StoredRecord::SdsReport { uuid }))
        .collect();
    let seen: Vec<u128> = replay(decoded)
        .iter()
        .map(|r| match r {
            StoredRecord::SdsReport { uuid } => *uuid,
            _ => panic!("unexpected record"),
        })
        .collect();
    assert_eq!(seen, vec![7, 8, 9]);
}

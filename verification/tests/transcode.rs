use brew_server::protocol::{
    build_ste_traffic_frame, CLASS_FRAME, FRAME_DTMF, STE_VOICE_PAYLOAD_BYTES,
};
use brew_server::transcode::g711::{alaw_decode, alaw_encode, ulaw_decode, ulaw_encode};
use brew_server::transcode::task::{
    decode_sample, dtmf_ascii_to_event, dtmf_event, encode_sample, BrewAction, Transcoder,
    TELEPHONE_EVENT_PT,
};

#[test]
fn ulaw_round_trip_is_lossy_but_close() {
    for pcm in [0i16, 100, -100, 3000, -3000, 32000, -32000] {
        let out = ulaw_decode(ulaw_encode(pcm));
        assert!((out as i32 - pcm as i32).abs() < 1200, "pcm={pcm} out={out}");
    }
}

#[test]
fn alaw_round_trip_is_lossy_but_close() {
    for pcm in [0i16, 100, -100, 3000, -3000, 32000, -32000] {
        let out = alaw_decode(alaw_encode(pcm));
        assert!((out as i32 - pcm as i32).abs() < 1200, "pcm={pcm} out={out}");
    }
}

#[test]
fn ulaw_silence_is_stable() {
    assert_eq!(ulaw_decode(ulaw_encode(0)), 0);
}

#[test]
fn alaw_silence_is_near_zero() {
    assert!(alaw_decode(alaw_encode(0)).abs() <= 8);
}

#[test]
fn codes_match_the_tables() {
    assert_eq!(ulaw_encode(0), 0xff);
    assert_eq!(ulaw_decode(0x00), -32124);
    assert_eq!(ulaw_decode(0x80), 32124);
    assert_eq!(alaw_encode(0), 0xd5);
    assert_eq!(alaw_decode(0xd5), 8);
    assert_eq!(alaw_decode(0x55), -8);
    for b in 0..=255u8 {
        assert_eq!(ulaw_decode(ulaw_encode(ulaw_decode(b))), ulaw_decode(b));
    }
}

#[test]
fn every_sample_stays_close() {
    for pcm in i16::MIN..=i16::MAX {
        assert!((ulaw_decode(ulaw_encode(pcm)) as i32 - pcm as i32).abs() <= 644);
        assert!((alaw_decode(alaw_encode(pcm)) as i32 - pcm as i32).abs() <= 512);
    }
}

#[test]
fn payload_types_choose_the_law() {
    assert_eq!(encode_sample(0, 1000), ulaw_encode(1000));
    assert_eq!(encode_sample(8, 1000), alaw_encode(1000));
    assert_eq!(decode_sample(8, 0xd5), 8);
    assert_eq!(decode_sample(0, 0xff), 0);
}

#[test]
fn dtmf_ascii_maps_to_rfc4733_events() {
    assert_eq!(dtmf_ascii_to_event(b'0'), Some(0));
    assert_eq!(dtmf_ascii_to_event(b'9'), Some(9));
    assert_eq!(dtmf_ascii_to_event(b'*'), Some(10));
    assert_eq!(dtmf_ascii_to_event(b'#'), Some(11));
    assert_eq!(dtmf_ascii_to_event(b'A'), Some(12));
    assert_eq!(dtmf_ascii_to_event(b'd'), Some(15));
    assert_eq!(dtmf_ascii_to_event(b'x'), None);
}

#[test]
fn send_dtmf_event_produces_three_correctly_shaped_rtp_packets() {
    let got = dtmf_event(5, 1000, 0xAAAA_BBBB, 0xCAFEBABE);
    assert_eq!(got.len(), 3);
    for (i, pkt) in got.iter().enumerate() {
        assert_eq!(pkt.len(), 16, "packet {i}");
        assert_eq!(pkt[0], 0x80, "RTP version byte, packet {i}");
        let marker = pkt[1] & 0x80 != 0;
        assert_eq!(marker, i == 0, "marker bit only on the first packet (packet {i})");
        assert_eq!(pkt[1] & 0x7F, TELEPHONE_EVENT_PT, "payload type, packet {i}");
        let seq = u16::from_be_bytes([pkt[2], pkt[3]]);
        assert_eq!(seq, 1000 + i as u16, "sequence numbers must be consecutive");
        let ts = u32::from_be_bytes([pkt[4], pkt[5], pkt[6], pkt[7]]);
        assert_eq!(ts, 0xAAAA_BBBB, "all 3 packets share the event's start timestamp, packet {i}");
        let ssrc = u32::from_be_bytes([pkt[8], pkt[9], pkt[10], pkt[11]]);
        assert_eq!(ssrc, 0xCAFEBABE, "packet {i}");
        assert_eq!(pkt[12], 5, "event code ('5'), packet {i}");
        let end_bit = pkt[13] & 0x80 != 0;
        assert_eq!(end_bit, i != 0, "end bit on the last 2 packets only, packet {i}");
    }
}

#[test]
fn rtp_output_is_paced_even_when_acelp_frames_arrive_in_a_burst() {
    let call_id: u128 = 0x1234;
    let mut t = Transcoder::new(0, call_id);
    // Two frames of two subframes each, all at once: samples for six packets.
    for _ in 0..2 {
        let raw = build_ste_traffic_frame(&call_id, &[0u8; STE_VOICE_PAYLOAD_BYTES]);
        let BrewAction::Voice(payload) = t.on_brew(&raw) else { panic!() };
        assert_eq!(payload.len(), STE_VOICE_PAYLOAD_BYTES);
        t.buffer_decoded(&[0i16; 480]);
    }
    // One packet per tick of the clock, and no more.
    for i in 0..6u16 {
        let p = t.rtp_tick().unwrap();
        assert_eq!(p.len(), 12 + 160);
        assert_eq!(u16::from_be_bytes([p[2], p[3]]), i);
        assert_eq!(u32::from_be_bytes([p[4], p[5], p[6], p[7]]), 160 * i as u32);
    }
    assert!(t.rtp_tick().is_none());
    let s = t.take_stats();
    assert_eq!((s.acelp_in, s.rtp_out, s.rtp_underflow), (2, 6, 1));
    assert_eq!(t.take_stats().rtp_out, 0);
}

#[test]
fn voice_from_the_phone_is_framed() {
    let mut t = Transcoder::new(8, 1);
    let mut rtp = vec![0x80, 8, 0, 0, 0, 0, 0, 0, 0, 0, 0, 0];
    rtp.extend_from_slice(&[0xd5; 240]);
    t.on_rtp(&rtp);
    assert!(t.acelp_tick().is_none());
    rtp[1] = 0;
    t.on_rtp(&rtp);
    assert!(t.acelp_tick().is_none(), "another payload type is ignored");
    rtp[1] = 8;
    t.on_rtp(&rtp);
    let (a, b) = t.acelp_tick().unwrap();
    assert_eq!(a, vec![8i16; 240]);
    assert_eq!(b, vec![8i16; 240]);
    t.on_rtp(&[0x80, 8]);
    assert!(t.acelp_tick().is_none());
}

#[test]
fn keys_become_tones() {
    let mut t = Transcoder::new(0, 0xCAFEBABE);
    let mut raw = vec![CLASS_FRAME, FRAME_DTMF];
    raw.extend_from_slice(&[0u8; 16]);
    raw.extend_from_slice(&8u16.to_le_bytes());
    raw.push(b'5');
    let BrewAction::Tone(p) = t.on_brew(&raw) else { panic!() };
    assert_eq!(p, dtmf_event(5, 0, 0, 0xCAFEBABE));
    assert_eq!(t.seq, 3);
    raw[20] = b'x';
    assert!(matches!(t.on_brew(&raw), BrewAction::Nothing));
    assert!(matches!(t.on_brew(&[0xf1, 10]), BrewAction::Control));
}

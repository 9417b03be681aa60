//! The pump between RTP and Brew voice of one call. What arrives is buffered as samples;
//! what leaves is paced by two clocks, one for RTP packets of 20 ms and one for Brew
//! frames of 60 ms, so that nothing leaves back to back however it arrived.
use crate::bytes::copy_range;
use crate::ids::Id;
use crate::protocol::{
    ACELP_PCM_SAMPLES, CLASS_FRAME, FRAME_DTMF, FRAME_TRAFFIC_CHANNEL, STE_VOICE_PAYLOAD_BYTES,
};
use crate::transcode::g711;
use crate::transcode::g711::{alaw_decode, alaw_encode, ulaw_decode, ulaw_encode};
use std::collections::VecDeque;
use vstd::prelude::*;

verus! {

/// Samples in an RTP packet: 20 ms at 8 kHz.
pub const RTP_SAMPLES_PER_PACKET: usize = 160;

/// RTP payload type of telephone events.
pub const TELEPHONE_EVENT_PT: u8 = 101;

/// Duration of a telephone event in samples: 200 ms.
pub const DTMF_DURATION: u16 = 1600;

/// Level of a telephone event, in -dBm0.
pub const DTMF_VOLUME: u8 = 10;

/// Milliseconds between RTP packets.
pub const RTP_INTERVAL_MS: u64 = 20;

/// Milliseconds between Brew voice frames, each of two subframes.
pub const ACELP_INTERVAL_MS: u64 = 60;

/// Milliseconds between reports of the counters.
pub const STATS_INTERVAL_MS: u64 = 5000;

/// The sample of a G.711 byte: A-law for payload type 8, else mu-law.
pub open spec fn sample_of(payload_type: u8, b: u8) -> int {
    if payload_type == 8 {
        g711::alaw_sample(b)
    } else {
        g711::ulaw_sample(b as int)
    }
}

/// The G.711 byte of a sample.
pub open spec fn byte_of(payload_type: u8, pcm: i16) -> u8 {
    if payload_type == 8 {
        g711::alaw_code(pcm as int)
    } else {
        g711::ulaw_code(pcm as int) as u8
    }
}

pub fn decode_sample(payload_type: u8, byte: u8) -> (r: i16)
    ensures
        r == sample_of(payload_type, byte),
{
    if payload_type == 8 {
        alaw_decode(byte)
    } else {
        ulaw_decode(byte)
    }
}

pub fn encode_sample(payload_type: u8, pcm: i16) -> (r: u8)
    ensures
        r == byte_of(payload_type, pcm),
{
    if payload_type == 8 {
        alaw_encode(pcm)
    } else {
        ulaw_encode(pcm)
    }
}

/// The telephone event of a key: 0 to 9, then star, hash and the letters A to D.
pub open spec fn event_of(digit: u8) -> Option<u8> {
    if 0x30 <= digit <= 0x39 {
        Some((digit - 0x30) as u8)
    } else if digit == 0x2A {
        Some(10)
    } else if digit == 0x23 {
        Some(11)
    } else if 0x41 <= digit <= 0x44 {
        Some((12 + (digit - 0x41)) as u8)
    } else if 0x61 <= digit <= 0x64 {
        Some((12 + (digit - 0x61)) as u8)
    } else {
        None
    }
}

/// Maps a key in ASCII to its telephone event.
pub fn dtmf_ascii_to_event(digit: u8) -> (r: Option<u8>)
    ensures
        r == event_of(digit),
{
    if 0x30 <= digit && digit <= 0x39 {
        Some(digit - 0x30)
    } else if digit == 0x2A {
        Some(10)
    } else if digit == 0x23 {
        Some(11)
    } else if 0x41 <= digit && digit <= 0x44 {
        Some(12 + (digit - 0x41))
    } else if 0x61 <= digit && digit <= 0x64 {
        Some(12 + (digit - 0x61))
    } else {
        None
    }
}

/// The head of an RTP packet without extras. `kind` is the payload type with the marker
/// bit on top.
pub open spec fn rtp_head(kind: u8, seq: u16, ts: u32, ssrc: u32) -> Seq<u8> {
    seq![
        0x80u8,
        kind,
        (seq / 256) as u8,
        (seq % 256) as u8,
        (ts / 0x100_0000) as u8,
        (ts / 0x1_0000 % 256) as u8,
        (ts / 256 % 256) as u8,
        (ts % 256) as u8,
        (ssrc / 0x100_0000) as u8,
        (ssrc / 0x1_0000 % 256) as u8,
        (ssrc / 256 % 256) as u8,
        (ssrc % 256) as u8,
    ]
}

fn put_head(out: &mut Vec<u8>, kind: u8, seq: u16, ts: u32, ssrc: u32)
    ensures
        final(out)@ == old(out)@ + rtp_head(kind, seq, ts, ssrc),
{
    out.push(0x80);
    out.push(kind);
    out.push((seq / 256) as u8);
    out.push((seq % 256) as u8);
    out.push((ts / 0x100_0000) as u8);
    out.push((ts / 0x1_0000 % 256) as u8);
    out.push((ts / 256 % 256) as u8);
    out.push((ts % 256) as u8);
    out.push((ssrc / 0x100_0000) as u8);
    out.push((ssrc / 0x1_0000 % 256) as u8);
    out.push((ssrc / 256 % 256) as u8);
    out.push((ssrc % 256) as u8);
    assert(out@ =~= old(out)@ + rtp_head(kind, seq, ts, ssrc));
}

/// A packet of a telephone event. The marker bit is on the first packet, the end bit on
/// the last ones.
pub open spec fn dtmf_packet(event: u8, first: bool, end: bool, seq: u16, ts: u32, ssrc: u32) -> Seq<
    u8,
> {
    rtp_head(
        if first {
            (128 + TELEPHONE_EVENT_PT) as u8
        } else {
            TELEPHONE_EVENT_PT
        },
        seq,
        ts,
        ssrc,
    ) + seq![
        event,
        if end {
            (128 + DTMF_VOLUME) as u8
        } else {
            DTMF_VOLUME
        },
        (DTMF_DURATION / 256) as u8,
        (DTMF_DURATION % 256) as u8,
    ]
}

/// The three packets of a telephone event: the start, and the end twice. They share the
/// time stamp of the event and have consecutive numbers.
pub open spec fn dtmf_packets(event: u8, seq: u16, ts: u32, ssrc: u32) -> Seq<Seq<u8>> {
    seq![
        dtmf_packet(event, true, false, seq, ts, ssrc),
        dtmf_packet(event, false, true, seq.wrapping_add(1), ts, ssrc),
        dtmf_packet(event, false, true, seq.wrapping_add(2), ts, ssrc),
    ]
}

fn build_dtmf(event: u8, first: bool, end: bool, seq: u16, ts: u32, ssrc: u32) -> (r: Vec<u8>)
    ensures
        r@ == dtmf_packet(event, first, end, seq, ts, ssrc),
{
    let mut out: Vec<u8> = Vec::new();
    let kind: u8 = if first {
        128 + TELEPHONE_EVENT_PT
    } else {
        TELEPHONE_EVENT_PT
    };
    put_head(&mut out, kind, seq, ts, ssrc);
    out.push(event);
    out.push(
        if end {
            128 + DTMF_VOLUME
        } else {
            DTMF_VOLUME
        },
    );
    out.push((DTMF_DURATION / 256) as u8);
    out.push((DTMF_DURATION % 256) as u8);
    assert(out@ =~= dtmf_packet(event, first, end, seq, ts, ssrc));
    out
}

pub open spec fn packet_views(v: Seq<Vec<u8>>) -> Seq<Seq<u8>> {
    Seq::new(v.len(), |i: int| v[i]@)
}

/// Builds the packets of a telephone event.
pub fn dtmf_event(event: u8, start_seq: u16, ts: u32, ssrc: u32) -> (r: Vec<Vec<u8>>)
    ensures
        packet_views(r@) == dtmf_packets(event, start_seq, ts, ssrc),
{
    let mut out: Vec<Vec<u8>> = Vec::new();
    out.push(build_dtmf(event, true, false, start_seq, ts, ssrc));
    out.push(build_dtmf(event, false, true, start_seq.wrapping_add(1), ts, ssrc));
    out.push(build_dtmf(event, false, true, start_seq.wrapping_add(2), ts, ssrc));
    assert(packet_views(out@) =~= dtmf_packets(event, start_seq, ts, ssrc));
    out
}

/// Where the payload of an RTP packet starts: behind the head, the list of contributing
/// sources and the extension. Nothing if the packet is too short for them.
pub open spec fn payload_start(d: Seq<u8>) -> Option<int> {
    if d.len() <= 12 {
        None
    } else {
        let lists = 12 + 4 * (d[0] % 16);
        if d[0] / 16 % 2 == 0 {
            if lists > d.len() {
                None
            } else {
                Some(lists)
            }
        } else if lists + 4 > d.len() {
            None
        } else {
            let start = lists + 4 + 4 * (256 * d[lists + 2] + d[lists + 3]);
            if start > d.len() {
                None
            } else {
                Some(start)
            }
        }
    }
}

/// The payload of an RTP packet, if it has the payload type that was agreed on.
pub open spec fn voice_in(d: Seq<u8>, payload_type: u8) -> Option<Seq<u8>> {
    match payload_start(d) {
        Some(start) => if d[1] % 128 == payload_type {
            Some(d.subrange(start, d.len() as int))
        } else {
            None
        },
        None => None,
    }
}

fn find_payload(d: &[u8]) -> (r: Option<usize>)
    ensures
        (match r {
            Some(k) => Some(k as int),
            None => None,
        }) == payload_start(d@),
        r matches Some(k) ==> k <= d@.len() && d@.len() > 12,
{
    let n: usize = d.len();
    if n <= 12 {
        return None;
    }
    let lists: usize = 12 + 4 * (d[0] % 16) as usize;
    if d[0] / 16 % 2 == 0 {
        if lists > n {
            None
        } else {
            Some(lists)
        }
    } else if lists + 4 > n {
        None
    } else {
        let words: usize = 256 * (d[lists + 2] as usize) + d[lists + 3] as usize;
        let start: usize = lists + 4 + 4 * words;
        if start > n {
            None
        } else {
            Some(start)
        }
    }
}

/// Counters of a call since they were last reported.
#[derive(Debug, Clone, Copy, PartialEq, Eq, Structural)]
pub struct Stats {
    pub rtp_in: u32,
    pub rtp_out: u32,
    pub rtp_underflow: u32,
    pub acelp_in: u32,
    pub acelp_out: u32,
    pub acelp_underflow: u32,
}

impl Default for Stats {
    fn default() -> (r: Self)
        ensures
            r == (Stats {
                rtp_in: 0,
                rtp_out: 0,
                rtp_underflow: 0,
                acelp_in: 0,
                acelp_out: 0,
                acelp_underflow: 0,
            }),
    {
        Stats {
            rtp_in: 0,
            rtp_out: 0,
            rtp_underflow: 0,
            acelp_in: 0,
            acelp_out: 0,
            acelp_underflow: 0,
        }
    }
}

/// The pump of one call.
pub struct Transcoder {
    pub payload_type: u8,
    pub call_id: Id,
    pub from_sip: VecDeque<i16>,
    pub from_brew: VecDeque<i16>,
    pub seq: u16,
    pub timestamp: u32,
    pub stats: Stats,
}

#[verifier::ext_equal]
pub struct PumpModel {
    pub payload_type: u8,
    pub call_id: Id,
    pub from_sip: Seq<i16>,
    pub from_brew: Seq<i16>,
    pub seq: u16,
    pub timestamp: u32,
    pub stats: Stats,
}

impl View for Transcoder {
    type V = PumpModel;

    open spec fn view(&self) -> PumpModel {
        PumpModel {
            payload_type: self.payload_type,
            call_id: self.call_id,
            from_sip: self.from_sip@,
            from_brew: self.from_brew@,
            seq: self.seq,
            timestamp: self.timestamp,
            stats: self.stats,
        }
    }
}

/// The synchronization source of a call: the low 32 bits of its identifier.
pub open spec fn ssrc_of(call_id: Id) -> u32 {
    (call_id % 0x1_0000_0000) as u32
}

/// The samples of G.711 bytes.
pub open spec fn samples(payload_type: u8, b: Seq<u8>) -> Seq<i16> {
    Seq::new(b.len(), |i: int| sample_of(payload_type, b[i]) as i16)
}

/// The G.711 bytes of samples.
pub open spec fn g711_bytes(payload_type: u8, pcm: Seq<i16>) -> Seq<u8> {
    Seq::new(pcm.len(), |i: int| byte_of(payload_type, pcm[i]))
}

/// The pump after an RTP packet: its voice is behind what was buffered.
pub open spec fn after_rtp(p: PumpModel, d: Seq<u8>) -> PumpModel {
    match voice_in(d, p.payload_type) {
        Some(voice) => PumpModel {
            from_sip: p.from_sip + samples(p.payload_type, voice),
            stats: Stats { rtp_in: p.stats.rtp_in.wrapping_add(1), ..p.stats },
            ..p
        },
        None => p,
    }
}

/// What becomes of a Brew packet.
#[derive(Debug)]
pub enum BrewAction {
    /// Nothing.
    Nothing,
    /// A key was pressed: send these RTP packets.
    Tone(Vec<Vec<u8>>),
    /// Voice: decode this payload, and buffer the samples.
    Voice(Vec<u8>),
    /// Not voice: pass the packet on to call control.
    Control,
}

#[verifier::ext_equal]
pub enum ActionModel {
    Nothing,
    Tone(Seq<Seq<u8>>),
    Voice(Seq<u8>),
    Control,
}

impl View for BrewAction {
    type V = ActionModel;

    open spec fn view(&self) -> ActionModel {
        match self {
            BrewAction::Nothing => ActionModel::Nothing,
            BrewAction::Tone(v) => ActionModel::Tone(packet_views(v@)),
            BrewAction::Voice(v) => ActionModel::Voice(v@),
            BrewAction::Control => ActionModel::Control,
        }
    }
}

/// Whether a Brew packet is a key.
pub open spec fn is_key(raw: Seq<u8>) -> bool {
    raw.len() >= 21 && raw[0] == CLASS_FRAME && raw[1] == FRAME_DTMF
}

/// Whether a Brew packet is voice.
pub open spec fn is_voice(raw: Seq<u8>) -> bool {
    raw.len() >= 20 + STE_VOICE_PAYLOAD_BYTES && raw[0] == CLASS_FRAME && raw[1]
        == FRAME_TRAFFIC_CHANNEL
}

/// What becomes of a Brew packet.
pub open spec fn brew_action(p: PumpModel, raw: Seq<u8>) -> ActionModel {
    if is_key(raw) {
        match event_of(raw[20]) {
            Some(e) => ActionModel::Tone(dtmf_packets(e, p.seq, p.timestamp, ssrc_of(p.call_id))),
            None => ActionModel::Nothing,
        }
    } else if is_voice(raw) {
        ActionModel::Voice(raw.subrange(20, 20 + STE_VOICE_PAYLOAD_BYTES))
    } else {
        ActionModel::Control
    }
}

/// The pump after a Brew packet. A key takes three numbers.
pub open spec fn after_brew(p: PumpModel, raw: Seq<u8>) -> PumpModel {
    if is_key(raw) {
        if event_of(raw[20]) is Some {
            PumpModel { seq: p.seq.wrapping_add(3), ..p }
        } else {
            p
        }
    } else if is_voice(raw) {
        PumpModel { stats: Stats { acelp_in: p.stats.acelp_in.wrapping_add(1), ..p.stats }, ..p }
    } else {
        p
    }
}

/// What leaves for RTP at a tick: one packet of the oldest samples, if there are enough.
pub open spec fn rtp_tick_out(p: PumpModel) -> Option<Seq<u8>> {
    if p.from_brew.len() >= RTP_SAMPLES_PER_PACKET {
        Some(
            rtp_head((p.payload_type % 128) as u8, p.seq, p.timestamp, ssrc_of(p.call_id))
                + g711_bytes(
                p.payload_type,
                p.from_brew.subrange(0, RTP_SAMPLES_PER_PACKET as int),
            ),
        )
    } else {
        None
    }
}

/// The pump after a tick of the RTP clock.
pub open spec fn after_rtp_tick(p: PumpModel) -> PumpModel {
    if p.from_brew.len() >= RTP_SAMPLES_PER_PACKET {
        PumpModel {
            from_brew: p.from_brew.subrange(
                RTP_SAMPLES_PER_PACKET as int,
                p.from_brew.len() as int,
            ),
            seq: p.seq.wrapping_add(1),
            timestamp: p.timestamp.wrapping_add(RTP_SAMPLES_PER_PACKET as u32),
            stats: Stats { rtp_out: p.stats.rtp_out.wrapping_add(1), ..p.stats },
            ..p
        }
    } else {
        PumpModel {
            stats: Stats { rtp_underflow: p.stats.rtp_underflow.wrapping_add(1), ..p.stats },
            ..p
        }
    }
}

/// What leaves for Brew at a tick: the oldest samples of two subframes, if there are
/// enough.
pub open spec fn acelp_tick_out(p: PumpModel) -> Option<(Seq<i16>, Seq<i16>)> {
    if p.from_sip.len() >= 2 * ACELP_PCM_SAMPLES {
        Some(
            (
                p.from_sip.subrange(0, ACELP_PCM_SAMPLES as int),
                p.from_sip.subrange(ACELP_PCM_SAMPLES as int, 2 * ACELP_PCM_SAMPLES),
            ),
        )
    } else {
        None
    }
}

/// The pump after a tick of the Brew clock.
pub open spec fn after_acelp_tick(p: PumpModel) -> PumpModel {
    if p.from_sip.len() >= 2 * ACELP_PCM_SAMPLES {
        PumpModel {
            from_sip: p.from_sip.subrange(2 * ACELP_PCM_SAMPLES, p.from_sip.len() as int),
            stats: Stats { acelp_out: p.stats.acelp_out.wrapping_add(1), ..p.stats },
            ..p
        }
    } else {
        PumpModel {
            stats: Stats { acelp_underflow: p.stats.acelp_underflow.wrapping_add(1), ..p.stats },
            ..p
        }
    }
}

/// Takes the oldest samples of a buffer.
fn take_samples(buffer: &mut VecDeque<i16>, n: usize) -> (r: Vec<i16>)
    requires
        n <= old(buffer)@.len(),
    ensures
        r@ == old(buffer)@.subrange(0, n as int),
        final(buffer)@ == old(buffer)@.subrange(n as int, old(buffer)@.len() as int),
{
    let ghost all = buffer@;
    let mut out: Vec<i16> = Vec::new();
    while out.len() < n
        invariant
            out@.len() <= n <= all.len(),
            out@ == all.subrange(0, out@.len() as int),
            buffer@ == all.subrange(out@.len() as int, all.len() as int),
        decreases n - out@.len(),
    {
        match buffer.pop_front() {
            Some(s) => {
                out.push(s);
                assert(out@ =~= all.subrange(0, out@.len() as int));
                assert(buffer@ =~= all.subrange(out@.len() as int, all.len() as int));
            },
            None => {},
        }
    }
    out
}

impl Transcoder {
    pub fn new(payload_type: u8, call_id: Id) -> (r: Self)
        ensures
            r@.payload_type == payload_type,
            r@.call_id == call_id,
            r@.from_sip == Seq::<i16>::empty(),
            r@.from_brew == Seq::<i16>::empty(),
            r@.seq == 0,
            r@.timestamp == 0,
            r@.stats == (Stats {
                rtp_in: 0,
                rtp_out: 0,
                rtp_underflow: 0,
                acelp_in: 0,
                acelp_out: 0,
                acelp_underflow: 0,
            }),
    {
        Transcoder {
            payload_type,
            call_id,
            from_sip: VecDeque::new(),
            from_brew: VecDeque::new(),
            seq: 0,
            timestamp: 0,
            stats: Stats::default(),
        }
    }

    fn ssrc(&self) -> (r: u32)
        ensures
            r == ssrc_of(self@.call_id),
    {
        (self.call_id % 0x1_0000_0000) as u32
    }

    /// Takes an RTP packet. One that is malformed, or has another payload type, is
    /// dropped.
    pub fn on_rtp(&mut self, d: &[u8])
        ensures
            final(self)@ == after_rtp(old(self)@, d@),
    {
        let n: usize = d.len();
        let Some(start) = find_payload(d) else {
            return;
        };
        if d[1] % 128 != self.payload_type {
            return;
        }
        self.stats = Stats { rtp_in: self.stats.rtp_in.wrapping_add(1), ..self.stats };
        let ghost voice = d@.subrange(start as int, n as int);
        let ghost before = self@;
        let pt: u8 = self.payload_type;
        let mut i: usize = start;
        while i < n
            invariant
                n == d@.len(),
                start <= i <= n,
                pt == before.payload_type,
                voice == d@.subrange(start as int, n as int),
                self@ == (PumpModel {
                    from_sip: before.from_sip + samples(pt, voice).subrange(0, i - start),
                    ..before
                }),
            decreases n - i,
        {
            let s: i16 = decode_sample(pt, d[i]);
            self.from_sip.push_back(s);
            assert(samples(pt, voice)[i - start] == s);
            assert(self.from_sip@ =~= before.from_sip + samples(pt, voice).subrange(
                0,
                i + 1 - start,
            ));
            i = i + 1;
        }
        assert(samples(pt, voice).subrange(0, n - start) =~= samples(pt, voice));
    }

    /// Takes a Brew packet, and says what becomes of it.
    pub fn on_brew(&mut self, raw: &[u8]) -> (r: BrewAction)
        ensures
            final(self)@ == after_brew(old(self)@, raw@),
            r@ == brew_action(old(self)@, raw@),
    {
        let n: usize = raw.len();
        if n >= 21 && raw[0] == CLASS_FRAME && raw[1] == FRAME_DTMF {
            return match dtmf_ascii_to_event(raw[20]) {
                Some(event) => {
                    let packets = dtmf_event(event, self.seq, self.timestamp, self.ssrc());
                    self.seq = self.seq.wrapping_add(3);
                    BrewAction::Tone(packets)
                },
                None => BrewAction::Nothing,
            };
        }
        if n < 20 + STE_VOICE_PAYLOAD_BYTES || raw[0] != CLASS_FRAME || raw[1]
            != FRAME_TRAFFIC_CHANNEL {
            return BrewAction::Control;
        }
        self.stats = Stats { acelp_in: self.stats.acelp_in.wrapping_add(1), ..self.stats };
        BrewAction::Voice(copy_range(raw, 20, 20 + STE_VOICE_PAYLOAD_BYTES))
    }

    /// Buffers the samples of a decoded Brew frame.
    pub fn buffer_decoded(&mut self, pcm: &[i16])
        ensures
            final(self)@ == (PumpModel { from_brew: old(self)@.from_brew + pcm@, ..old(self)@ }),
    {
        let ghost before = self@;
        let n: usize = pcm.len();
        let mut i: usize = 0;
        while i < n
            invariant
                n == pcm@.len(),
                i <= n,
                self@ == (PumpModel {
                    from_brew: before.from_brew + pcm@.subrange(0, i as int),
                    ..before
                }),
            decreases n - i,
        {
            self.from_brew.push_back(pcm[i]);
            i = i + 1;
            assert(self.from_brew@ =~= before.from_brew + pcm@.subrange(0, i as int));
        }
        assert(pcm@.subrange(0, n as int) =~= pcm@);
    }

    /// A tick of the Brew clock: the samples of the two subframes to encode and send.
    pub fn acelp_tick(&mut self) -> (r: Option<(Vec<i16>, Vec<i16>)>)
        ensures
            final(self)@ == after_acelp_tick(old(self)@),
            (match r {
                Some((a, b)) => Some((a@, b@)),
                None => None,
            }) == acelp_tick_out(old(self)@),
    {
        if self.from_sip.len() >= 2 * ACELP_PCM_SAMPLES {
            let first = take_samples(&mut self.from_sip, ACELP_PCM_SAMPLES);
            let second = take_samples(&mut self.from_sip, ACELP_PCM_SAMPLES);
            self.stats = Stats { acelp_out: self.stats.acelp_out.wrapping_add(1), ..self.stats };
            assert(second@ =~= old(self)@.from_sip.subrange(
                ACELP_PCM_SAMPLES as int,
                2 * ACELP_PCM_SAMPLES,
            ));
            assert(self.from_sip@ =~= after_acelp_tick(old(self)@).from_sip);
            Some((first, second))
        } else {
            self.stats = Stats {
                acelp_underflow: self.stats.acelp_underflow.wrapping_add(1),
                ..self.stats
            };
            None
        }
    }

    /// A tick of the RTP clock: the packet to send.
    pub fn rtp_tick(&mut self) -> (r: Option<Vec<u8>>)
        ensures
            final(self)@ == after_rtp_tick(old(self)@),
            (match r {
                Some(v) => Some(v@),
                None => None,
            }) == rtp_tick_out(old(self)@),
    {
        if self.from_brew.len() >= RTP_SAMPLES_PER_PACKET {
            let pcm = take_samples(&mut self.from_brew, RTP_SAMPLES_PER_PACKET);
            let mut out: Vec<u8> = Vec::new();
            put_head(&mut out, self.payload_type % 128, self.seq, self.timestamp, self.ssrc());
            let ghost head = out@;
            let pt: u8 = self.payload_type;
            let mut i: usize = 0;
            while i < pcm.len()
                invariant
                    i <= pcm@.len(),
                    out@ == head + g711_bytes(pt, pcm@).subrange(0, i as int),
                decreases pcm@.len() - i,
            {
                out.push(encode_sample(pt, pcm[i]));
                i = i + 1;
                assert(out@ =~= head + g711_bytes(pt, pcm@).subrange(0, i as int));
            }
            assert(g711_bytes(pt, pcm@).subrange(0, i as int) =~= g711_bytes(pt, pcm@));
            assert(out@ =~= rtp_tick_out(old(self)@)->0);
            self.seq = self.seq.wrapping_add(1);
            self.timestamp = self.timestamp.wrapping_add(RTP_SAMPLES_PER_PACKET as u32);
            self.stats = Stats { rtp_out: self.stats.rtp_out.wrapping_add(1), ..self.stats };
            Some(out)
        } else {
            self.stats = Stats {
                rtp_underflow: self.stats.rtp_underflow.wrapping_add(1),
                ..self.stats
            };
            None
        }
    }

    /// Hands the counters out and starts them anew.
    pub fn take_stats(&mut self) -> (r: Stats)
        ensures
            r == old(self)@.stats,
            final(self)@.stats == (Stats {
                rtp_in: 0,
                rtp_out: 0,
                rtp_underflow: 0,
                acelp_in: 0,
                acelp_out: 0,
                acelp_underflow: 0,
            }),
            final(self)@ == (PumpModel { stats: final(self)@.stats, ..old(self)@ }),
    {
        let s = self.stats;
        self.stats = Stats::default();
        s
    }
}

/// The pump after some ticks of the RTP clock with nothing else happening.
pub open spec fn after_rtp_ticks(p: PumpModel, n: nat) -> PumpModel
    decreases n,
{
    if n == 0 {
        p
    } else {
        after_rtp_tick(after_rtp_ticks(p, (n - 1) as nat))
    }
}

/// However voice arrives, it leaves one packet at a time and in order: tick `n` sends
/// samples number 160 n to 160 n + 159 of what was buffered, under the next number and
/// 160 further in time.
pub proof fn a_burst_leaves_in_order(p: PumpModel, n: nat)
    requires
        RTP_SAMPLES_PER_PACKET * (n + 1) <= p.from_brew.len(),
    ensures
        ({
            let q = after_rtp_ticks(p, n);
            &&& q.from_brew == p.from_brew.subrange(
                RTP_SAMPLES_PER_PACKET * n,
                p.from_brew.len() as int,
            )
            &&& q.seq == (p.seq + n) % 0x1_0000
            &&& q.timestamp == (p.timestamp + RTP_SAMPLES_PER_PACKET * n) % 0x1_0000_0000
            &&& rtp_tick_out(q) == Some(
                rtp_head((p.payload_type % 128) as u8, q.seq, q.timestamp, ssrc_of(p.call_id))
                    + g711_bytes(
                    p.payload_type,
                    p.from_brew.subrange(
                        RTP_SAMPLES_PER_PACKET * n,
                        RTP_SAMPLES_PER_PACKET * n + RTP_SAMPLES_PER_PACKET,
                    ),
                ),
            )
            &&& q.payload_type == p.payload_type
            &&& q.call_id == p.call_id
        }),
{
    ticks_drain(p, n);
    ticks_count(p, n);
    let q = after_rtp_ticks(p, n);
    let from = RTP_SAMPLES_PER_PACKET * n;
    assert(q.from_brew.subrange(0, RTP_SAMPLES_PER_PACKET as int) =~= p.from_brew.subrange(
        from,
        from + RTP_SAMPLES_PER_PACKET,
    ));
}

proof fn ticks_drain(p: PumpModel, n: nat)
    requires
        RTP_SAMPLES_PER_PACKET * n <= p.from_brew.len(),
    ensures
        after_rtp_ticks(p, n).from_brew == p.from_brew.subrange(
            RTP_SAMPLES_PER_PACKET * n,
            p.from_brew.len() as int,
        ),
        after_rtp_ticks(p, n).payload_type == p.payload_type,
        after_rtp_ticks(p, n).call_id == p.call_id,
    decreases n,
{
    if n > 0 {
        ticks_drain(p, (n - 1) as nat);
    }
    assert(after_rtp_ticks(p, n).from_brew =~= p.from_brew.subrange(
        RTP_SAMPLES_PER_PACKET * n,
        p.from_brew.len() as int,
    ));
}

proof fn ticks_count(p: PumpModel, n: nat)
    requires
        RTP_SAMPLES_PER_PACKET * n <= p.from_brew.len(),
    ensures
        after_rtp_ticks(p, n).seq == (p.seq + n) % 0x1_0000,
        after_rtp_ticks(p, n).timestamp == (p.timestamp + RTP_SAMPLES_PER_PACKET * n)
            % 0x1_0000_0000,
    decreases n,
{
    if n > 0 {
        let before = (n - 1) as nat;
        ticks_count(p, before);
        ticks_drain(p, before);
        let r = after_rtp_ticks(p, before);
        assert(r.from_brew.len() >= RTP_SAMPLES_PER_PACKET);
        assert(after_rtp_ticks(p, n) == after_rtp_tick(r));
        assert(r.seq.wrapping_add(1) == (r.seq + 1) % 0x1_0000);
        assert(r.timestamp.wrapping_add(160) == (r.timestamp + 160) % 0x1_0000_0000);
        vstd::arithmetic::div_mod::lemma_add_mod_noop(p.seq + before, 1, 0x1_0000);
        vstd::arithmetic::div_mod::lemma_add_mod_noop(
            p.timestamp + RTP_SAMPLES_PER_PACKET * before,
            160,
            0x1_0000_0000,
        );
    }
}

/// Voice that came in by RTP leaves for Brew unchanged and in order, two subframes at a
/// time, and what is not enough for two waits.
pub proof fn no_sample_is_lost(p: PumpModel)
    ensures
        match acelp_tick_out(p) {
            Some((a, b)) => a.len() == ACELP_PCM_SAMPLES && b.len() == ACELP_PCM_SAMPLES && a + b
                + after_acelp_tick(p).from_sip == p.from_sip,
            None => after_acelp_tick(p).from_sip == p.from_sip && p.from_sip.len() < 2
                * ACELP_PCM_SAMPLES,
        },
{
    match acelp_tick_out(p) {
        Some((a, b)) => {
            assert(a + b + after_acelp_tick(p).from_sip =~= p.from_sip);
        },
        None => {},
    }
}

/// Whatever shares the port with the voice is not taken for voice.
pub proof fn other_payloads_are_ignored(p: PumpModel, d: Seq<u8>)
    requires
        d.len() >= 2,
        d[1] % 128 != p.payload_type,
    ensures
        after_rtp(p, d) == p,
{
}

/// What leaves toward SIP can be read back: a voice packet is an RTP packet of the agreed
/// type with 160 samples, numbered one above the last and 160 further in time.
pub proof fn voice_packets_are_read_back(p: PumpModel)
    requires
        p.from_brew.len() >= 160,
        p.payload_type < 128,
    ensures
        ({
            let d = rtp_tick_out(p)->0;
            let after = after_rtp_tick(p);
            &&& rtp_tick_out(p) is Some
            &&& d.len() == 172
            &&& d[0] == 0x80 && d[1] == p.payload_type
            &&& 256 * d[2] + d[3] == p.seq
            &&& 0x100_0000 * d[4] + 0x1_0000 * d[5] + 256 * d[6] + d[7] == p.timestamp
            &&& 0x100_0000 * d[8] + 0x1_0000 * d[9] + 256 * d[10] + d[11] == p.call_id
                % 0x1_0000_0000
            &&& voice_in(d, p.payload_type) == Some(
                g711_bytes(p.payload_type, p.from_brew.subrange(0, 160)),
            )
            &&& after.from_brew == p.from_brew.subrange(160, p.from_brew.len() as int)
            &&& after.seq == (p.seq + 1) % 0x1_0000
            &&& after.timestamp == (p.timestamp + 160) % 0x1_0000_0000
            &&& after.from_sip == p.from_sip
        }),
{
    let d = rtp_tick_out(p)->0;
    let head = rtp_head((p.payload_type % 128) as u8, p.seq, p.timestamp, ssrc_of(p.call_id));
    let voice = g711_bytes(p.payload_type, p.from_brew.subrange(0, 160));
    head_is_laid_out((p.payload_type % 128) as u8, p.seq, p.timestamp, ssrc_of(p.call_id));
    assert(d == head + voice);
    assert(forall|i: int| 0 <= i < 12 ==> #[trigger] d[i] == head[i]);
    assert(d[0] == 0x80 && d[1] == p.payload_type);
    assert(payload_start(d) == Some(12int));
    assert(d.subrange(12, d.len() as int) =~= voice);
}

/// The payload of an RTP packet starts behind its fixed head, four bytes for each
/// contributing source and, where the packet has an extension, behind that. A packet of
/// another type has none.
pub proof fn payloads_stand_behind_the_head(
    kind: u8,
    rest: Seq<u8>,
    sources: Seq<u8>,
    ext: Seq<u8>,
    voice: Seq<u8>,
    n: u8,
    words: u16,
    other: u8,
)
    requires
        rest.len() == 10,
        n < 16,
        sources.len() == 4 * n,
        ext.len() == 4 * words,
        voice.len() > 0,
    ensures
        voice_in(seq![(0x80 + n) as u8, kind] + rest + sources + voice, (kind % 128) as u8) == Some(
            voice,
        ),
        voice_in(
            seq![(0x90 + n) as u8, kind] + rest + sources + seq![
                0u8,
                0u8,
                (words / 256) as u8,
                (words % 256) as u8,
            ] + ext + voice,
            (kind % 128) as u8,
        ) == Some(voice),
        other != kind % 128 ==> voice_in(
            seq![(0x80 + n) as u8, kind] + rest + sources + voice,
            other,
        ) is None,
{
    let d = seq![(0x80 + n) as u8, kind] + rest + sources + voice;
    let lists = 12 + 4 * n;
    assert(d[0] == 0x80 + n && d[1] == kind);
    assert(d[0] % 16 == n && d[0] as int / 16 % 2 == 0);
    assert(d.subrange(lists, d.len() as int) =~= voice);
    let x = seq![0u8, 0u8, (words / 256) as u8, (words % 256) as u8];
    let e = seq![(0x90 + n) as u8, kind] + rest + sources + x + ext + voice;
    assert(e[0] == 0x90 + n && e[1] == kind);
    assert(e[0] % 16 == n && e[0] as int / 16 % 2 == 1);
    assert(e[lists + 2] == x[2] && e[lists + 3] == x[3]);
    assert(e.subrange(lists + 4 + 4 * words, e.len() as int) =~= voice);
}

/// A key that is pressed becomes its telephone event: 0 to 9 for the digits, 10 for the
/// star, 11 for the hash and 12 to 15 for the letters A to D in either case; no other key
/// has one.
pub proof fn keys_have_their_events(key: u8)
    ensures
        48 <= key <= 57 ==> event_of(key) == Some((key - 48) as u8),
        key == 42 ==> event_of(key) == Some(10u8),
        key == 35 ==> event_of(key) == Some(11u8),
        65 <= key <= 68 ==> event_of(key) == Some((key - 53) as u8),
        97 <= key <= 100 ==> event_of(key) == Some((key - 85) as u8),
        event_of(key) matches Some(e) ==> e < 16,
        event_of(key) is Some <==> 48 <= key <= 57 || key == 42 || key == 35 || 65 <= key <= 68
            || 97 <= key <= 100,
{
}

/// A key is sent as three packets with the same time and consecutive numbers: the first
/// with the marker, the other two with the end bit.
pub proof fn keys_are_sent_three_times(event: u8, number: u16, ts: u32, ssrc: u32, i: int)
    requires
        0 <= i < 3,
    ensures
        ({
            let d = dtmf_packets(event, number, ts, ssrc);
            &&& d.len() == 3
            &&& d[i].len() == 16
            &&& d[i][0] == 0x80
            &&& d[i][1] % 128 == 101
            &&& d[i][1] >= 128 <==> i == 0
            &&& 256 * d[i][2] + d[i][3] == (number + i) % 0x1_0000
            &&& 0x100_0000 * d[i][4] + 0x1_0000 * d[i][5] + 256 * d[i][6] + d[i][7] == ts
            &&& 0x100_0000 * d[i][8] + 0x1_0000 * d[i][9] + 256 * d[i][10] + d[i][11] == ssrc
            &&& d[i][12] == event
            &&& d[i][13] >= 128 <==> i > 0
        }),
{
    let d = dtmf_packets(event, number, ts, ssrc);
    let n = number.wrapping_add(i as u16);
    assert(d[i] == dtmf_packet(event, i == 0, i > 0, n, ts, ssrc));
    head_is_laid_out(if i == 0 {
        229
    } else {
        101
    }, n, ts, ssrc);
}

/// The numbers in the head of an RTP packet, the most significant byte first.
proof fn head_is_laid_out(kind: u8, number: u16, ts: u32, ssrc: u32)
    ensures
        ({
            let h = rtp_head(kind, number, ts, ssrc);
            &&& h.len() == 12
            &&& 256 * h[2] + h[3] == number
            &&& 0x100_0000 * h[4] + 0x1_0000 * h[5] + 256 * h[6] + h[7] == ts
            &&& 0x100_0000 * h[8] + 0x1_0000 * h[9] + 256 * h[10] + h[11] == ssrc
        }),
{
    word_is_laid_out(ts);
    word_is_laid_out(ssrc);
}

proof fn word_is_laid_out(v: u32)
    ensures
        0x100_0000 * (v / 0x100_0000) + 0x1_0000 * (v / 0x1_0000 % 256) + 256 * (v / 256 % 256) + v
            % 256 == v,
        v / 0x100_0000 < 256,
{
}

/// The voice of an RTP packet of the agreed type is behind what came before, sample by
/// sample.
pub proof fn voice_is_queued_in_order(p: PumpModel, d: Seq<u8>, voice: Seq<u8>, i: int)
    requires
        voice_in(d, p.payload_type) == Some(voice),
        0 <= i < voice.len(),
    ensures
        after_rtp(p, d).from_sip.len() == p.from_sip.len() + voice.len(),
        after_rtp(p, d).from_sip.subrange(0, p.from_sip.len() as int) == p.from_sip,
        p.payload_type == 8 ==> after_rtp(p, d).from_sip[p.from_sip.len() + i]
            == g711::alaw_sample(voice[i]) as i16,
        p.payload_type == 0 ==> after_rtp(p, d).from_sip[p.from_sip.len() + i]
            == g711::ulaw_sample(voice[i] as int) as i16,
        after_rtp(p, d).from_brew == p.from_brew,
{
    assert(after_rtp(p, d).from_sip.subrange(0, p.from_sip.len() as int) =~= p.from_sip);
}

/// A Brew packet is a key if it is a frame of the key's type with the key in it, voice if
/// it is a traffic frame with two speech frames in it, and otherwise control, which is
/// handed on.
pub proof fn brew_packets_are_told_apart(p: PumpModel, raw: Seq<u8>)
    ensures
        raw.len() >= 56 && raw[0] == 0xf2 && raw[1] == 0 ==> brew_action(p, raw)
            == ActionModel::Voice(raw.subrange(20, 56)) && after_brew(p, raw).seq == p.seq,
        raw.len() >= 21 && raw[0] == 0xf2 && raw[1] == 3 && event_of(raw[20]) is Some ==> brew_action(
            p,
            raw,
        ) == ActionModel::Tone(
            dtmf_packets(event_of(raw[20])->0, p.seq, p.timestamp, ssrc_of(p.call_id)),
        ) && after_brew(p, raw).seq == (p.seq + 3) % 0x1_0000,
        raw.len() >= 21 && raw[0] == 0xf2 && raw[1] == 3 && event_of(raw[20]) is None ==> brew_action(
            p,
            raw,
        ) is Nothing,
        !(raw.len() >= 56 && raw[0] == 0xf2 && raw[1] == 0) && !(raw.len() >= 21 && raw[0] == 0xf2
            && raw[1] == 3) ==> brew_action(p, raw) is Control && after_brew(p, raw) == p,
{
}

/// What leaves toward Brew is the oldest voice: two subframes of 240 samples each, once
/// there are enough, and the rest waits.
pub proof fn oldest_voice_leaves_first(p: PumpModel)
    ensures
        p.from_sip.len() >= 480 ==> acelp_tick_out(p) == Some(
            (p.from_sip.subrange(0, 240), p.from_sip.subrange(240, 480)),
        ) && after_acelp_tick(p).from_sip == p.from_sip.subrange(480, p.from_sip.len() as int),
        p.from_sip.len() < 480 ==> acelp_tick_out(p) is None && after_acelp_tick(p).from_sip
            == p.from_sip,
        after_acelp_tick(p).from_brew == p.from_brew,
        after_acelp_tick(p).seq == p.seq,
{
}

/// Everything that passes is counted, once, and nothing else is: packets with voice that
/// come from SIP, voice that comes from Brew, and at each tick what leaves, or that there
/// was not enough to leave.
pub proof fn traffic_is_counted(p: PumpModel, d: Seq<u8>, raw: Seq<u8>)
    ensures
        ({
            let s = p.stats;
            let limit: int = 0x1_0000_0000;
            let a = after_rtp(p, d).stats;
            let b = after_brew(p, raw).stats;
            let c = after_rtp_tick(p).stats;
            let e = after_acelp_tick(p).stats;
            &&& voice_in(d, p.payload_type) is Some ==> a == (Stats { rtp_in: a.rtp_in, ..s })
                && a.rtp_in == (s.rtp_in + 1) % limit
            &&& voice_in(d, p.payload_type) is None ==> a == s
            &&& brew_action(p, raw) is Voice ==> b == (Stats { acelp_in: b.acelp_in, ..s })
                && b.acelp_in == (s.acelp_in + 1) % limit
            &&& !(brew_action(p, raw) is Voice) ==> b == s
            &&& p.from_brew.len() >= 160 ==> c == (Stats { rtp_out: c.rtp_out, ..s }) && c.rtp_out
                == (s.rtp_out + 1) % limit
            &&& p.from_brew.len() < 160 ==> c == (Stats { rtp_underflow: c.rtp_underflow, ..s })
                && c.rtp_underflow == (s.rtp_underflow + 1) % limit
            &&& p.from_sip.len() >= 480 ==> e == (Stats { acelp_out: e.acelp_out, ..s })
                && e.acelp_out == (s.acelp_out + 1) % limit
            &&& p.from_sip.len() < 480 ==> e == (Stats { acelp_underflow: e.acelp_underflow, ..s })
                && e.acelp_underflow == (s.acelp_underflow + 1) % limit
        }),
{
}

} // verus!

//! Where the fields of a packet stand, byte by byte, and which packets are refused.
use crate::bytes;
use crate::ids;
use crate::ids::Id;
use crate::protocol;
use crate::protocol::{ConnVersion, MessageModel, ParseError, PayloadModel};
use crate::text;
use vstd::prelude::*;

verus! {

/// Four bytes as a number, the least significant first.
pub open spec fn four(d: Seq<u8>, i: int) -> int {
    d[i] as int + 0x100 * d[i + 1] as int + 0x1_0000 * d[i + 2] as int + 0x100_0000 * d[i + 3] as int
}

/// A group transmission is packet class `f1`, state 2: behind the identifier of the call
/// the calling subscriber, the group, the priority, the access and the service.
pub proof fn group_transmissions_are_laid_out(d: Seq<u8>, version: ConnVersion)
    requires
        d.len() >= 30,
        d[0] == 0xf1,
        d[1] == 2,
    ensures
        protocol::parsed(d, version) matches Ok((
            MessageModel::CallControl { call_state, identifier, payload },
            seen,
        )) && call_state == 2 && identifier == bytes::be_value(d.subrange(2, 18)) && (
        payload matches PayloadModel::GroupTransmission {
            source,
            destination,
            priority,
            access,
            service,
            mnemonic,
        } && source == four(d, 18) && destination == four(d, 22) && priority == d[26] && access
            == d[27] && service == d[28] + 256 * d[29] && (d.len() == 30 ==> mnemonic is None))
            && seen == (if d.len() > 30 {
            ConnVersion::V1
        } else {
            version
        }),
{
    bytes::be_of_bytes(d.subrange(2, 18));
    bytes::pow256_16();
    let p = d.subrange(18, d.len() as int);
    assert(p[8] == d[26] && p[9] == d[27]);
    assert(p[0] == d[18] && p[1] == d[19] && p[2] == d[20] && p[3] == d[21]);
    assert(p[4] == d[22] && p[5] == d[23] && p[6] == d[24] && p[7] == d[25]);
    assert(p[10] == d[28] && p[11] == d[29]);
}

/// A set-up request is packet class `f1`, state 4, and a request to connect is state 8:
/// behind the identifier the calling subscriber, the called one, the dialled number in 32
/// bytes up to the first zero, and the priority. A set-up request with the room for a
/// mnemonic behind it shows version 1.
pub proof fn set_up_requests_are_laid_out(
    d: Seq<u8>,
    version: ConnVersion,
    number: Seq<char>,
    k: int,
)
    requires
        d.len() >= 69,
        d[0] == 0xf1,
        d[1] == 4 || d[1] == 8,
        0 <= k < 32,
        d[26 + k] == 0,
        forall|i: int| 0 <= i < k ==> #[trigger] d[26 + i] != 0,
        d.subrange(26, 26 + k) == vstd::utf8::encode_utf8(number),
    ensures
        protocol::parsed(d, version) matches Ok((
            MessageModel::CallControl { call_state, identifier, payload },
            seen,
        )) && call_state == d[1] && identifier == bytes::be_value(d.subrange(2, 18)) && (
        payload matches PayloadModel::CircularCall {
            source,
            destination,
            number: dialled,
            priority,
            mnemonic,
        } && source == four(d, 18) && destination == four(d, 22) && dialled == number && priority
            == d[58] && (d[1] == 8 || d.len() < 103 ==> mnemonic is None)) && seen == (if d[1] == 4
            && d.len() >= 103 {
            ConnVersion::V1
        } else {
            version
        }),
{
    bytes::be_of_bytes(d.subrange(2, 18));
    bytes::pow256_16();
    let p = d.subrange(18, d.len() as int);
    assert(p[0] == d[18] && p[1] == d[19] && p[2] == d[20] && p[3] == d[21]);
    assert(p[4] == d[22] && p[5] == d[23] && p[6] == d[24] && p[7] == d[25]);
    assert(p[40] == d[58]);
    let f = p.subrange(8, 40);
    assert forall|i: int| 0 <= i < f.len() implies f[i] == d[26 + i] by {}
    assert(f[k] == 0);
    bytes::index_or_len_unique(f, 0, k);
    assert(f.subrange(0, k) =~= d.subrange(26, 26 + k));
    vstd::utf8::encode_utf8_valid_utf8(number);
    vstd::utf8::encode_utf8_decode_utf8(number);
}

/// A short-data header is packet class `f1`, state 11: behind the identifier the sending
/// subscriber and the destination. The end of a call, states 3 and 10, and a rejection,
/// state 6, carry one byte of cause.
pub proof fn short_headers_and_causes_are_laid_out(d: Seq<u8>, version: ConnVersion)
    requires
        d.len() >= 26,
        d[0] == 0xf1,
        d[1] == 11 || d[1] == 3 || d[1] == 6 || d[1] == 10,
    ensures
        protocol::parsed(d, version) matches Ok((
            MessageModel::CallControl { call_state, identifier, payload },
            seen,
        )) && call_state == d[1] && identifier == bytes::be_value(d.subrange(2, 18)) && payload == (
        if d[1] == 11 {
            PayloadModel::ShortTransfer {
                source: four(d, 18) as u32,
                destination: four(d, 22) as u32,
            }
        } else {
            PayloadModel::Cause(d[18])
        }) && seen == version,
{
    bytes::be_of_bytes(d.subrange(2, 18));
    bytes::pow256_16();
    let p = d.subrange(18, d.len() as int);
    assert(p[0] == d[18] && p[1] == d[19] && p[2] == d[20] && p[3] == d[21]);
    assert(p[4] == d[22] && p[5] == d[23] && p[6] == d[24] && p[7] == d[25]);
}

/// A frame is packet class `f2`: its type, the identifier, its length in bits and its
/// data.
pub proof fn frames_are_laid_out(d: Seq<u8>, version: ConnVersion)
    requires
        d.len() >= 20,
        d[0] == 0xf2,
    ensures
        protocol::parsed(d, version) matches Ok((
            MessageModel::Frame { frame_type, identifier, length_bits, data },
            seen,
        )) && frame_type == d[1] && identifier == bytes::be_value(d.subrange(2, 18)) && length_bits
            == d[18] + 256 * d[19] && data == d.subrange(20, d.len() as int) && seen == version,
{
    bytes::be_of_bytes(d.subrange(2, 18));
    bytes::pow256_16();
}

/// A subscriber message is packet class `f0`: its type, the subscriber, a time stamp, its
/// fraction, and groups of four bytes each as far as the packet goes.
pub proof fn subscriber_messages_are_laid_out(d: Seq<u8>, version: ConnVersion)
    requires
        d.len() >= 18,
        d[0] == 0xf0,
    ensures
        protocol::parsed(d, version) matches Ok((
            MessageModel::Subscriber { msg_type, issi, timestamp, fraction, groups },
            seen,
        )) && msg_type == d[1] && issi == four(d, 2) && timestamp == four(d, 6) + 0x1_0000_0000
            * four(d, 10) && fraction == four(d, 14) && groups.len() == (d.len() - 18) / 4 && (
        forall|i: int| 0 <= i < groups.len() ==> #[trigger] groups[i] == four(d, 18 + 4 * i))
            && seen == version,
{
}

/// A packet of less than two bytes, or too short for its class, is refused as too short,
/// with its length; one of another class than the five is refused with that class.
pub proof fn bad_packets_are_refused(d: Seq<u8>, version: ConnVersion)
    requires
        d.len() <= usize::MAX,
    ensures
        d.len() < 2 ==> protocol::parsed(d, version) == Err::<
            (MessageModel, ConnVersion),
            ParseError,
        >(ParseError::TooShort(d.len() as usize)),
        d.len() >= 2 && ((d[0] == 0xf0 && d.len() < 18) || (d[0] == 0xf1 && d.len() < 18) || (d[0]
            == 0xf1 && d[1] == 2 && d.len() < 30) || (d[0] == 0xf1 && (d[1] == 4 || d[1] == 8)
            && d.len() < 69) || (d[0] == 0xf1 && d[1] == 11 && d.len() < 26) || (d[0] == 0xf1 && (
        d[1] == 3 || d[1] == 6 || d[1] == 10) && d.len() < 19) || (d[0] == 0xf2 && d.len() < 20))
            ==> protocol::parsed(d, version) == Err::<(MessageModel, ConnVersion), ParseError>(
            ParseError::TooShort(d.len() as usize),
        ),
        d.len() >= 2 && !(0xf0 <= d[0] <= 0xf4) ==> protocol::parsed(d, version) == Err::<
            (MessageModel, ConnVersion),
            ParseError,
        >(ParseError::UnknownClass(d[0])),
{
}

/// Packed septets are read bit by bit: bit `j` of the `i`-th character is bit `7 i + j` of
/// the bytes, counted from the least significant bit of the first.
pub proof fn septets_are_read_bit_by_bit(s: Seq<u8>, i: int, j: u8)
    requires
        0 <= i,
        j < 7,
        (7 * i + j) / 8 < s.len(),
    ensures
        protocol::septet(s, i) < 128,
        (protocol::septet(s, i) >> j) & 1 == (s[(7 * i + j) / 8] >> (((7 * i + j) % 8) as u8)) & 1,
{
    let k = 7 * i / 8;
    let off = (7 * i % 8) as u16;
    let a = protocol::byte_or_zero(s, k);
    let b = protocol::byte_or_zero(s, k + 1);
    let pair = (a + 256 * b) as u16;
    let r = ((pair >> off) % 128) as u8;
    assert(protocol::septet(s, i) == r);
    let at = (off + j) as u16;
    assert(pair == a as int + 256 * b as int);
    assert(r < 128 && (at < 8 ==> (r >> j) & 1 == (a >> (at as u8)) & 1) && (at >= 8 ==> (r >> j) & 1
        == (b >> ((at - 8) as u8)) & 1)) by (bit_vector)
        requires
            pair == a + 256 * b,
            r == ((pair >> off) % 128) as u8,
            at == off + j,
            off < 8,
            j < 7,
    ;
    if at < 8 {
        assert((7 * i + j) / 8 == k);
        assert((7 * i + j) % 8 == at);
    } else {
        assert((7 * i + j) / 8 == k + 1);
        assert((7 * i + j) % 8 == at - 8);
    }
}

/// A mnemonic of coding scheme 0 is its bytes as characters, as many as its length in
/// bits says; one of length zero is none.
pub proof fn plain_mnemonics_are_read(scheme: u8, t: Seq<u8>, more: Seq<u8>)
    requires
        scheme == 0 || scheme == 128,
        0 < t.len() < 32,
        forall|i: int| 0 <= i < t.len() ==> 0x20 < #[trigger] t[i] < 0x7f,
    ensures
        protocol::mnemonic_text(seq![scheme, (8 * t.len()) as u8] + t + more) == Some(
            Seq::new(t.len(), |i: int| t[i] as char),
        ),
        protocol::mnemonic_text(seq![scheme, 0u8] + t + more) is None,
{
    let f = seq![scheme, (8 * t.len()) as u8] + t + more;
    let body = f.subrange(2, f.len() as int);
    assert(body =~= t + more);
    assert(body.subrange(0, t.len() as int) =~= t);
    let chars = Seq::new(t.len(), |i: int| t[i] as char);
    assert(protocol::latin1(t) =~= chars);
    let x = t.last();
    assert(0x20 < x < 0x7f);
    assert(chars.last() == x as char);
    visible_byte(x);
    assert(text::trim_padding(chars) == chars);
    let g = seq![scheme, 0u8] + t + more;
    assert(g[1] == 0);
}

proof fn visible_byte(x: u8)
    requires
        0x20 < x < 0x7f,
    ensures
        x as char != '\0',
        x as char != ' ',
{
}

proof fn number_spelled(v: u32)
    ensures
        four(bytes::le32_bytes(v), 0) == v,
{
}

/// Whether a packet starts with its class, its state and the identifier of the call.
pub open spec fn headed(d: Seq<u8>, class: u8, state: u8, id: Id) -> bool {
    d.len() >= 18 && d[0] == class && d[1] == state && d.subrange(2, 18) == bytes::be_bytes(
        id as nat,
        16,
    )
}

/// A set-up or connect request that the server builds has its fields where they are read,
/// the least significant byte of a number first. It asks for a duplex call with hook
/// signalling and dials no number.
pub proof fn built_requests_are_laid_out(
    call_state: u8,
    id: Id,
    source: u32,
    destination: u32,
    priority: u8,
)
    ensures
        ({
            let d = protocol::circular_call_packet(call_state, id, source, destination, priority);
            &&& d.len() == 69
            &&& headed(d, 0xf1, call_state, id)
            &&& four(d, 18) == source
            &&& four(d, 22) == destination
            &&& d[58] == priority
            &&& forall|i: int| 26 <= i < 58 ==> #[trigger] d[i] == 0
            &&& d[61] == 1 && d[62] == 1
            &&& d[59] == 0 && d[60] == 0
            &&& forall|i: int| 63 <= i < 69 ==> #[trigger] d[i] == 0
        }),
{
    ids::id_round_trip(id);
    let d = protocol::circular_call_packet(call_state, id, source, destination, priority);
    assert(d.subrange(2, 18) =~= bytes::be_bytes(id as nat, 16));
    let a = bytes::le32_bytes(source);
    let b = bytes::le32_bytes(destination);
    number_spelled(source);
    number_spelled(destination);
    assert(d.subrange(18, 22) =~= a);
    assert(d.subrange(22, 26) =~= b);
    assert(four(d, 18) == four(d.subrange(18, 22), 0));
    assert(four(d, 22) == four(d.subrange(22, 26), 0));
}

/// A group transmission and a cause that the server builds have their fields where they
/// are read.
pub proof fn built_group_packets_are_laid_out(
    call_state: u8,
    id: Id,
    source: u32,
    gssi: u32,
    priority: u8,
    cause: u8,
)
    ensures
        ({
            let g = protocol::group_tx_packet(id, source, gssi, priority);
            let c = protocol::call_cause_packet(call_state, id, cause);
            &&& g.len() == 30
            &&& headed(g, 0xf1, 2, id)
            &&& four(g, 18) == source
            &&& four(g, 22) == gssi
            &&& g[26] == priority
            &&& c.len() == 19
            &&& headed(c, 0xf1, call_state, id)
            &&& c[18] == cause
        }),
{
    ids::id_round_trip(id);
    let g = protocol::group_tx_packet(id, source, gssi, priority);
    let c = protocol::call_cause_packet(call_state, id, cause);
    assert(g.subrange(2, 18) =~= bytes::be_bytes(id as nat, 16));
    assert(c.subrange(2, 18) =~= bytes::be_bytes(id as nat, 16));
    number_spelled(source);
    number_spelled(gssi);
    assert(g.subrange(18, 22) =~= bytes::le32_bytes(source));
    assert(g.subrange(22, 26) =~= bytes::le32_bytes(gssi));
    assert(four(g, 18) == four(g.subrange(18, 22), 0));
    assert(four(g, 22) == four(g.subrange(22, 26), 0));
}

/// A frame and a subscriber message that the server builds have their fields where they
/// are read.
pub proof fn built_frames_are_laid_out(
    frame_type: u8,
    id: Id,
    bits: u16,
    data: Seq<u8>,
    msg_type: u8,
    issi: u32,
    groups: Seq<u32>,
)
    ensures
        ({
            let f = protocol::frame_packet(frame_type, id, bits, data);
            let s = protocol::subscriber_packet(msg_type, issi, groups);
            &&& headed(f, 0xf2, frame_type, id)
            &&& f.len() == 20 + data.len()
            &&& f[18] + 256 * f[19] == bits
            &&& f.subrange(20, f.len() as int) == data
            &&& s.len() == 18 + 4 * groups.len()
            &&& s[0] == 0xf0 && s[1] == msg_type && four(s, 2) == issi
            &&& forall|i: int| 0 <= i < groups.len() ==> four(s, 18 + 4 * i) == #[trigger] groups[i]
        }),
{
    ids::id_round_trip(id);
    let f = protocol::frame_packet(frame_type, id, bits, data);
    assert(f.subrange(2, 18) =~= bytes::be_bytes(id as nat, 16));
    assert(f.subrange(20, f.len() as int) =~= data);
    assert(f[18] == bytes::le16_bytes(bits)[0] && f[19] == bytes::le16_bytes(bits)[1]);
    let s = protocol::subscriber_packet(msg_type, issi, groups);
    groups_spelled(groups);
    number_spelled(issi);
    assert(s.subrange(2, 6) =~= bytes::le32_bytes(issi));
    assert(four(s, 2) == four(s.subrange(2, 6), 0));
    let g = protocol::group_bytes(groups);
    assert(s.subrange(18, s.len() as int) =~= g);
    assert forall|i: int| 0 <= i < groups.len() implies four(s, 18 + 4 * i) == #[trigger] groups[i] by {
        assert(four(g, 4 * i) == groups[i]);
        assert(g[4 * i] == s[18 + 4 * i] && g[4 * i + 1] == s[18 + 4 * i + 1] && g[4 * i + 2]
            == s[18 + 4 * i + 2] && g[4 * i + 3] == s[18 + 4 * i + 3]);
    }
}

proof fn groups_spelled(groups: Seq<u32>)
    ensures
        protocol::group_bytes(groups).len() == 4 * groups.len(),
        forall|i: int|
            0 <= i < groups.len() ==> four(protocol::group_bytes(groups), 4 * i)
                == #[trigger] groups[i],
    decreases groups.len(),
{
    if groups.len() > 0 {
        let init = groups.drop_last();
        groups_spelled(init);
        let all = protocol::group_bytes(groups);
        let before = protocol::group_bytes(init);
        let last = bytes::le32_bytes(groups.last());
        number_spelled(groups.last());
        assert(all == before + last);
        assert forall|i: int| 0 <= i < groups.len() implies four(all, 4 * i) == #[trigger] groups[i] by {
            if i < init.len() {
                assert(init[i] == groups[i]);
                assert(four(before, 4 * i) == init[i]);
                assert(all[4 * i] == before[4 * i] && all[4 * i + 1] == before[4 * i + 1] && all[4
                    * i + 2] == before[4 * i + 2] && all[4 * i + 3] == before[4 * i + 3]);
            } else {
                let n = before.len() as int;
                assert(all[n] == last[0] && all[n + 1] == last[1] && all[n + 2] == last[2] && all[n
                    + 3] == last[3]);
            }
        }
    }
}

/// A header that names version 1 or a later one claims version 1; version 0, and no
/// header, claim version 0.
pub proof fn versions_are_claimed(v: u8)
    ensures
        ConnVersion::of_header(None) == ConnVersion::V0,
        v == 0 ==> ConnVersion::of_header(Some(v)) == ConnVersion::V0,
        v > 0 ==> ConnVersion::of_header(Some(v)) == ConnVersion::V1,
        ConnVersion::V0.number() == 0,
        ConnVersion::V1.number() == 1,
{
}

/// The states of a call that carry nothing are read as empty, and those without a layout
/// of their own as they stand.
pub proof fn other_states_are_read_as_they_stand(d: Seq<u8>, version: ConnVersion)
    requires
        d.len() >= 18,
        d[0] == 0xf1,
    ensures
        d[1] == 5 || d[1] == 7 ==> (protocol::parsed(d, version) matches Ok((
            MessageModel::CallControl { call_state, payload, .. },
            seen,
        )) && call_state == d[1] && payload is Empty && seen == version),
        d[1] == 9 || d[1] == 12 || d[1] == 13 ==> (protocol::parsed(d, version) matches Ok((
            MessageModel::CallControl { call_state, payload, .. },
            seen,
        )) && call_state == d[1] && payload == PayloadModel::Raw(d.subrange(18, d.len() as int))
            && seen == version),
{
}

} // verus!

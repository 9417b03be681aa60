//! ITU-T G.711: mu-law, RTP payload type 0, and A-law, payload type 8.
use vstd::prelude::*;

verus! {

/// A number doubled `e` times, up to seven.
pub open spec fn doubled(x: int, e: int) -> int {
    if e <= 0 {
        x
    } else if e == 1 {
        2 * x
    } else if e == 2 {
        4 * x
    } else if e == 3 {
        8 * x
    } else if e == 4 {
        16 * x
    } else if e == 5 {
        32 * x
    } else if e == 6 {
        64 * x
    } else {
        128 * x
    }
}

/// A number halved `e` times, up to seven.
pub open spec fn halved(x: int, e: int) -> int {
    if e <= 0 {
        x
    } else if e == 1 {
        x / 2
    } else if e == 2 {
        x / 4
    } else if e == 3 {
        x / 8
    } else if e == 4 {
        x / 16
    } else if e == 5 {
        x / 32
    } else if e == 6 {
        x / 64
    } else {
        x / 128
    }
}

fn double(x: i32, e: i32) -> (r: i32)
    requires
        0 <= x <= 0xFFFF,
    ensures
        r == doubled(x as int, e as int),
{
    if e <= 0 {
        x
    } else if e == 1 {
        2 * x
    } else if e == 2 {
        4 * x
    } else if e == 3 {
        8 * x
    } else if e == 4 {
        16 * x
    } else if e == 5 {
        32 * x
    } else if e == 6 {
        64 * x
    } else {
        128 * x
    }
}

fn halve(x: i32, e: i32) -> (r: i32)
    requires
        0 <= x,
    ensures
        r == halved(x as int, e as int),
        0 <= r,
{
    if e <= 0 {
        x
    } else if e == 1 {
        x / 2
    } else if e == 2 {
        x / 4
    } else if e == 3 {
        x / 8
    } else if e == 4 {
        x / 16
    } else if e == 5 {
        x / 32
    } else if e == 6 {
        x / 64
    } else {
        x / 128
    }
}

/// The first of eight segments whose upper end is not below a value. The first segment
/// ends before `width`, and each is twice as wide as the one before it.
pub open spec fn segment(v: int, width: int) -> int {
    if v < width {
        0
    } else if v < 2 * width {
        1
    } else if v < 4 * width {
        2
    } else if v < 8 * width {
        3
    } else if v < 16 * width {
        4
    } else if v < 32 * width {
        5
    } else if v < 64 * width {
        6
    } else {
        7
    }
}

fn search(v: i32, width: i32) -> (r: i32)
    requires
        0 < width <= 256,
    ensures
        r == segment(v as int, width as int),
        0 <= r <= 7,
{
    if v < width {
        0
    } else if v < 2 * width {
        1
    } else if v < 4 * width {
        2
    } else if v < 8 * width {
        3
    } else if v < 16 * width {
        4
    } else if v < 32 * width {
        5
    } else if v < 64 * width {
        6
    } else {
        7
    }
}

/// Magnitude of a sample, cut at 32635 and moved up by 132.
pub open spec fn biased(pcm: int) -> int {
    let m = if pcm < 0 {
        -pcm
    } else {
        pcm
    };
    (if m > 32635 {
        32635
    } else {
        m
    }) + 132
}

/// The mu-law code of a sample, before all bits are turned over: sign, segment, and the
/// four bits behind the leading one of the biased magnitude.
pub open spec fn ulaw_fields(pcm: int) -> int {
    let m = biased(pcm);
    let e = segment(m, 256);
    (if pcm < 0 {
        128int
    } else {
        0
    }) + 16 * e + halved(m / 8, e) % 16
}

/// The mu-law code of a sample.
pub open spec fn ulaw_code(pcm: int) -> int {
    255 - ulaw_fields(pcm)
}

/// The sample that a mu-law code stands for.
pub open spec fn ulaw_sample(code: int) -> int {
    let b = 255 - code;
    let m = doubled(b % 16 * 8 + 132, b / 16 % 8) - 132;
    if b >= 128 {
        -m
    } else {
        m
    }
}

/// Encodes a sample in mu-law.
pub fn ulaw_encode(pcm: i16) -> (r: u8)
    ensures
        r == ulaw_code(pcm as int),
{
    let mut m: i32 = pcm as i32;
    let mut sign: i32 = 0;
    if m < 0 {
        m = -m;
        sign = 128;
    }
    if m > 32635 {
        m = 32635;
    }
    m = m + 132;
    let e: i32 = search(m, 256);
    let mantissa: i32 = halve(m / 8, e) % 16;
    (255 - (sign + 16 * e + mantissa)) as u8
}

/// Decodes a mu-law code.
pub fn ulaw_decode(byte: u8) -> (r: i16)
    ensures
        r == ulaw_sample(byte as int),
{
    let b: i32 = 255 - byte as i32;
    let e: i32 = b / 16 % 8;
    let m: i32 = double(b % 16 * 8 + 132, e) - 132;
    if b >= 128 {
        (-m) as i16
    } else {
        m as i16
    }
}

/// Magnitude of a sample in eighths, counted from the sample's own side of zero.
pub open spec fn eighths(pcm: int) -> int {
    let s = pcm / 8;
    if s >= 0 {
        s
    } else {
        -s - 1
    }
}

/// Segment and four bits of an A-law code.
pub open spec fn alaw_fields(pcm: int) -> int {
    let s = eighths(pcm);
    let e = segment(s, 32);
    16 * e + (if e < 2 {
        s / 2 % 16
    } else {
        halved(s, e) % 16
    })
}

/// The A-law code of a sample: every other bit is turned over, and the sign bit is set
/// for samples that are not negative.
pub open spec fn alaw_code(pcm: int) -> u8 {
    if pcm >= 0 {
        (alaw_fields(pcm) as u8) ^ 0xD5u8
    } else {
        (alaw_fields(pcm) as u8) ^ 0x55u8
    }
}

/// The sample that an A-law code stands for.
pub open spec fn alaw_sample(code: u8) -> int {
    let b = (code ^ 0x55u8) as int;
    let e = b / 16 % 8;
    let m = if e == 0 {
        b % 16 * 16 + 8
    } else {
        doubled(b % 16 * 16 + 0x108, e - 1)
    };
    if b >= 128 {
        m
    } else {
        -m
    }
}

/// Encodes a sample in A-law.
pub fn alaw_encode(pcm: i16) -> (r: u8)
    ensures
        r == alaw_code(pcm as int),
{
    let s: i32 = if pcm >= 0 {
        pcm as i32 / 8
    } else {
        (-(pcm as i32) + 7) / 8 - 1
    };
    assert(s == eighths(pcm as int));
    let e: i32 = search(s, 32);
    let q: i32 = if e < 2 {
        s / 2
    } else {
        halve(s, e)
    };
    let fields: u8 = (16 * e + q % 16) as u8;
    if pcm >= 0 {
        fields ^ 0xD5u8
    } else {
        fields ^ 0x55u8
    }
}

/// Decodes an A-law code.
pub fn alaw_decode(byte: u8) -> (r: i16)
    ensures
        r == alaw_sample(byte),
{
    let b: i32 = (byte ^ 0x55u8) as i32;
    let e: i32 = b / 16 % 8;
    let m: i32 = if e == 0 {
        b % 16 * 16 + 8
    } else {
        double(b % 16 * 16 + 0x108, e - 1)
    };
    if b >= 128 {
        m as i16
    } else {
        (-m) as i16
    }
}

/// Mu-law is lossy but close: no sample is off by more than 644, and one that is not
/// cut by no more than 4 doubled once for each segment below its own.
pub proof fn ulaw_is_close(pcm: int)
    requires
        -32768 <= pcm <= 32767,
    ensures
        0 <= ulaw_code(pcm) <= 255,
        -644 <= ulaw_sample(ulaw_code(pcm)) - pcm <= 644,
        -32635 <= pcm <= 32635 ==> {
            let bound = doubled(4, segment(biased(pcm), 256));
            -bound <= ulaw_sample(ulaw_code(pcm)) - pcm <= bound
        },
        pcm > 0 ==> ulaw_sample(ulaw_code(pcm)) >= 0,
        pcm < 0 ==> ulaw_sample(ulaw_code(pcm)) <= 0,
{
    let m = biased(pcm);
    let e = segment(m, 256);
    let q = halved(m / 8, e);
    assert(16 <= q <= 31);
    let f = ulaw_fields(pcm);
    assert(f / 16 % 8 == e && f % 16 == q - 16);
}

/// Silence stays silence in mu-law.
pub proof fn ulaw_keeps_silence()
    ensures
        ulaw_sample(ulaw_code(0)) == 0,
{
}

/// What was coded once in mu-law is not changed by coding it again.
pub proof fn ulaw_is_stable(code: int)
    requires
        0 <= code <= 255,
    ensures
        ulaw_sample(ulaw_code(ulaw_sample(code))) == ulaw_sample(code),
{
    let b = 255 - code;
    let e = b / 16 % 8;
    let k = b % 16;
    let x = ulaw_sample(code);
    assert(biased(x) == doubled(k * 8 + 132, e));
    assert(segment(biased(x), 256) == e);
    assert(halved(biased(x) / 8, e) == k + 16);
    let f = ulaw_fields(x);
    assert(f / 16 % 8 == e && f % 16 == k);
}

proof fn alaw_mask(f: u8)
    requires
        f < 128,
    ensures
        (f ^ 0xD5u8) ^ 0x55u8 == f + 128,
        (f ^ 0x55u8) ^ 0x55u8 == f,
{
    assert(f < 128 ==> (f ^ 0xD5u8) ^ 0x55u8 == f + 128) by (bit_vector);
    assert((f ^ 0x55u8) ^ 0x55u8 == f) by (bit_vector);
}

/// A-law is lossy but close: no sample is off by more than 512.
pub proof fn alaw_is_close(pcm: int)
    requires
        -32768 <= pcm <= 32767,
    ensures
        -512 <= alaw_sample(alaw_code(pcm)) - pcm <= 512,
        ({
            let e = segment(eighths(pcm), 32);
            let bound = if e < 2 {
                8
            } else {
                doubled(4, e)
            };
            -bound <= alaw_sample(alaw_code(pcm)) - pcm <= bound
        }),
        pcm >= 0 ==> alaw_sample(alaw_code(pcm)) > 0,
        pcm < 0 ==> alaw_sample(alaw_code(pcm)) < 0,
{
    let s = eighths(pcm);
    assert(0 <= s <= 4095);
    let e = segment(s, 32);
    let f = alaw_fields(pcm);
    assert(0 <= f < 128);
    alaw_mask(f as u8);
    let q = if e < 2 {
        s / 2
    } else {
        halved(s, e)
    };
    assert(e == 0 ==> 0 <= q <= 15);
    assert(e >= 1 ==> 16 <= q <= 31);
    assert(f / 16 % 8 == e && f % 16 == q % 16);
    assert((f + 128) / 16 % 8 == e && (f + 128) % 16 == q % 16);
}

/// Silence comes out of A-law as a sample of magnitude 8.
pub proof fn alaw_silence_is_near_zero()
    ensures
        alaw_sample(alaw_code(0)) == 8,
{
    alaw_mask(0);
}

/// The first bit of a mu-law code tells the sign, the two signs of a magnitude have codes
/// that differ in that bit alone, and the louder a sample, the lower the rest of its code:
/// from silence, all ones, to the loudest, all zeros.
pub proof fn ulaw_codes_are_ordered(a: int, b: int)
    requires
        0 <= a <= b <= 32767,
    ensures
        ulaw_code(a) >= 128,
        a > 0 ==> ulaw_code(-a) == ulaw_code(a) - 128,
        ulaw_code(a) >= ulaw_code(b),
        ulaw_code(0) == 255,
        b >= 32635 ==> ulaw_code(b) == 128 && ulaw_code(-b) == 0,
{
    let m = biased(a);
    let n = biased(b);
    let e = segment(m, 256);
    let f = segment(n, 256);
    assert(16 <= halved(m / 8, e) <= 31);
    assert(16 <= halved(n / 8, f) <= 31);
    assert(m <= n);
    assert(e <= f);
    if e == f {
        assert(halved(m / 8, e) <= halved(n / 8, e));
    }
}

/// The first bit of an A-law code tells the sign, and the louder a sample, the higher the
/// rest of its code, once every other bit is turned back.
pub proof fn alaw_codes_are_ordered(a: int, b: int)
    requires
        0 <= a <= b <= 32767,
    ensures
        alaw_code(a) ^ 0x55u8 >= 128,
        alaw_code(-b - 1) ^ 0x55u8 < 128,
        (alaw_code(-b - 1) ^ 0x55u8) + 128 == alaw_code(b) ^ 0x55u8,
        (alaw_code(a) ^ 0x55u8) <= (alaw_code(b) ^ 0x55u8),
        alaw_code(0) == 0xD5,
{
    let s = eighths(a);
    let t = eighths(b);
    assert((-b - 1) / 8 == -(b / 8) - 1);
    assert(eighths(-b - 1) == t);
    assert(0 <= s <= t <= 4095);
    let e = segment(s, 32);
    let f = segment(t, 32);
    assert(e <= f);
    let x = alaw_fields(a);
    let y = alaw_fields(b);
    assert(0 <= x < 128 && 0 <= y < 128);
    alaw_mask(x as u8);
    alaw_mask(y as u8);
    assert(e == 0 ==> s / 2 <= 15);
    assert(e == 1 ==> 16 <= s / 2 <= 31);
    assert(e >= 2 ==> 16 <= halved(s, e) <= 31);
    assert(f == 0 ==> t / 2 <= 15);
    assert(f == 1 ==> 16 <= t / 2 <= 31);
    assert(f >= 2 ==> 16 <= halved(t, f) <= 31);
    if e == f && e >= 2 {
        assert(halved(s, e) <= halved(t, e));
    }
    assert(x <= y);
    assert(0u8 ^ 0xD5u8 == 0xD5u8) by (bit_vector);
}

} // verus!

//! What decoding a position promises, told over the bytes and the characters that are
//! read.
use crate::position;
use crate::position::{CandidateModel, DegMinModel, NumberModel};
use crate::text;
use vstd::prelude::*;

verus! {

/// Bits that follow one another spell what the two runs spell, the first one shifted.
proof fn bits_join(b: Seq<u8>, start: int, n: nat, m: nat)
    ensures
        position::bits(b, start, n + m) == position::bits(b, start, n)
            * vstd::arithmetic::power2::pow2(m) + position::bits(b, start + n, m),
    decreases m,
{
    if m == 0 {
        vstd::arithmetic::power2::lemma2_to64();
    } else {
        bits_join(b, start, n, (m - 1) as nat);
        vstd::arithmetic::power2::lemma_pow2_unfold(m);
        let x = position::bits(b, start, n) as int;
        let q = vstd::arithmetic::power2::pow2((m - 1) as nat) as int;
        assert(2 * (x * q) == x * (2 * q)) by (nonlinear_arith);
    }
}

/// What the bits of one byte spell.
proof fn byte_bits(b: Seq<u8>, i: int)
    requires
        0 <= i < b.len(),
    ensures
        position::bits(b, 8 * i, 1) == b[i] as int / 128,
        position::bits(b, 8 * i, 2) == b[i] as int / 64,
        position::bits(b, 8 * i, 5) == b[i] as int / 8,
        position::bits(b, 8 * i, 7) == b[i] as int / 2,
        position::bits(b, 8 * i, 8) == b[i] as int,
        position::bits(b, 8 * i + 4, 4) == b[i] as int % 16,
        position::bits(b, 8 * i + 5, 3) == b[i] as int % 8,
        position::bits(b, 8 * i + 7, 1) == b[i] as int % 2,
{
    let x = b[i];
    assert forall|k: int| 0 <= k < 8 implies #[trigger] position::bit(b, 8 * i + k) == ((x >> ((7
        - k) as u8)) & 1) as int by {
        assert((8 * i + k) / 8 == i);
        assert((8 * i + k) % 8 == k);
    }
    let b0 = (x >> 7u8) & 1;
    let b1 = (x >> 6u8) & 1;
    let b2 = (x >> 5u8) & 1;
    let b3 = (x >> 4u8) & 1;
    let b4 = (x >> 3u8) & 1;
    let b5 = (x >> 2u8) & 1;
    let b6 = (x >> 1u8) & 1;
    let b7 = (x >> 0u8) & 1;
    assert(x == 128 * b0 + 64 * b1 + 32 * b2 + 16 * b3 + 8 * b4 + 4 * b5 + 2 * b6 + b7 && b0 <= 1
        && b1 <= 1 && b2 <= 1 && b3 <= 1 && b4 <= 1 && b5 <= 1 && b6 <= 1 && b7 <= 1)
        by (bit_vector)
        requires
            b0 == (x >> 7u8) & 1,
            b1 == (x >> 6u8) & 1,
            b2 == (x >> 5u8) & 1,
            b3 == (x >> 4u8) & 1,
            b4 == (x >> 3u8) & 1,
            b5 == (x >> 2u8) & 1,
            b6 == (x >> 1u8) & 1,
            b7 == (x >> 0u8) & 1,
    ;
    let at = 8 * i;
    assert(position::bit(b, at + 0) == b0);
    assert(position::bit(b, at + 1) == b1);
    assert(position::bit(b, at + 2) == b2);
    assert(position::bit(b, at + 3) == b3);
    assert(position::bit(b, at + 4) == b4);
    assert(position::bit(b, at + 5) == b5);
    assert(position::bit(b, at + 6) == b6);
    assert(position::bit(b, at + 7) == b7);
    assert(position::bits(b, at, 0) == 0);
    assert(position::bits(b, at, 1) == b0);
    assert(position::bits(b, at, 2) == 2 * b0 + b1);
    assert(position::bits(b, at, 3) == 4 * b0 + 2 * b1 + b2);
    assert(position::bits(b, at, 4) == 8 * b0 + 4 * b1 + 2 * b2 + b3);
    assert(position::bits(b, at, 5) == 16 * b0 + 8 * b1 + 4 * b2 + 2 * b3 + b4);
    assert(position::bits(b, at, 6) == 32 * b0 + 16 * b1 + 8 * b2 + 4 * b3 + 2 * b4 + b5);
    assert(position::bits(b, at, 7) == 64 * b0 + 32 * b1 + 16 * b2 + 8 * b3 + 4 * b4 + 2 * b5 + b6);
    assert(position::bits(b, at, 8) == x);
    assert(position::bits(b, at + 4, 0) == 0);
    assert(position::bits(b, at + 4, 1) == b4);
    assert(position::bits(b, at + 4, 2) == 2 * b4 + b5);
    assert(position::bits(b, at + 4, 3) == 4 * b4 + 2 * b5 + b6);
    assert(position::bits(b, at + 4, 4) == 8 * b4 + 4 * b5 + 2 * b6 + b7);
    assert(position::bits(b, at + 5, 0) == 0);
    assert(position::bits(b, at + 5, 1) == b5);
    assert(position::bits(b, at + 5, 2) == 2 * b5 + b6);
    assert(position::bits(b, at + 5, 3) == 4 * b5 + 2 * b6 + b7);
    assert(position::bits(b, at + 7, 0) == 0);
    assert(position::bits(b, at + 7, 1) == b7);
}

/// The longitude of a short report as its bytes spell it: 25 bits, from the fifth bit of
/// the byte behind the protocol identifier on.
pub open spec fn short_lon_bits(b: Seq<u8>) -> int {
    (b[1] as int % 16) * 0x20_0000 + b[2] as int * 0x2000 + b[3] as int * 0x20 + b[4] as int / 8
}

/// The latitude of a short report as its bytes spell it: the 24 bits behind the longitude.
pub open spec fn short_lat_bits(b: Seq<u8>) -> int {
    (b[4] as int % 8) * 0x20_0000 + b[5] as int * 0x2000 + b[6] as int * 0x20 + b[7] as int / 8
}

proof fn short_bits(b: Seq<u8>)
    requires
        b.len() >= 8,
    ensures
        position::bits(b.subrange(1, b.len() as int), 0, 2) == b[1] as int / 64,
        position::bits(b.subrange(1, b.len() as int), 4, 25) == short_lon_bits(b),
        position::bits(b.subrange(1, b.len() as int), 29, 24) == short_lat_bits(b),
{
    let p = b.subrange(1, b.len() as int);
    vstd::arithmetic::power2::lemma2_to64();
    byte_bits(p, 0);
    byte_bits(p, 1);
    byte_bits(p, 2);
    byte_bits(p, 3);
    byte_bits(p, 4);
    byte_bits(p, 5);
    byte_bits(p, 6);
    bits_join(p, 4, 4, 8);
    bits_join(p, 4, 12, 8);
    bits_join(p, 4, 20, 5);
    bits_join(p, 29, 3, 8);
    bits_join(p, 29, 11, 8);
    bits_join(p, 29, 19, 5);
}

/// A short location report gives back the position that was put in it: for every latitude
/// and longitude, in two's complement in their places and not both zero, it decodes to
/// exactly these, south and west being negative.
pub proof fn short_reports_give_back_the_place(b: Seq<u8>, lat: int, lon: int)
    requires
        b.len() >= 8,
        b[0] == 0x0A,
        b[1] < 0x40,
        -0x80_0000 <= lat < 0x80_0000,
        -0x100_0000 <= lon < 0x100_0000,
        lat != 0 || lon != 0,
        short_lat_bits(b) == lat % 0x100_0000,
        short_lon_bits(b) == lon % 0x200_0000,
    ensures
        position::short_report(b) == Some((lat, lon)),
{
    short_bits(b);
}

/// A short location report is read from eight bytes or more that start with the protocol
/// identifier and the type of a short report, and do not hold zero for both angles. The
/// position is negative to the south and to the west, which the first bit of each angle
/// tells, and what follows it does not matter.
pub proof fn short_reports_are_told_apart(b: Seq<u8>, other: Seq<u8>)
    ensures
        position::short_report(b) is Some <==> b.len() >= 8 && b[0] == 0x0A && b[1] as int / 64 == 0
            && !(short_lat_bits(b) == 0 && short_lon_bits(b) == 0),
        position::short_report(b) matches Some((lat, lon)) ==> {
            &&& -0x80_0000 <= lat < 0x80_0000
            &&& -0x100_0000 <= lon < 0x100_0000
            &&& (lat - short_lat_bits(b)) % 0x100_0000 == 0
            &&& (lon - short_lon_bits(b)) % 0x200_0000 == 0
            &&& lat < 0 <==> b[4] as int % 8 >= 4
            &&& lon < 0 <==> b[1] as int % 16 >= 8
        },
        b.len() >= 8 ==> position::short_report(b.subrange(0, 8) + other) == position::short_report(
            b,
        ),
{
    if b.len() >= 8 {
        short_bits(b);
        short_bits(b.subrange(0, 8) + other);
    }
}

/// The latitude of a long report as its bytes spell it: 24 bits that start in the last bit
/// of byte 14.
pub open spec fn long_lat_bits(b: Seq<u8>) -> int {
    (b[14] as int % 2) * 0x80_0000 + b[15] as int * 0x8000 + b[16] as int * 0x80 + b[17] as int / 2
}

/// The longitude of a long report as its bytes spell it: 25 bits from byte 19 on.
pub open spec fn long_lon_bits(b: Seq<u8>) -> int {
    b[19] as int * 0x2_0000 + b[20] as int * 0x200 + b[21] as int * 2 + b[22] as int / 128
}

proof fn long_bits(b: Seq<u8>)
    requires
        b.len() >= 23,
    ensures
        position::bits(b, 119, 24) == long_lat_bits(b),
        position::bits(b, 152, 25) == long_lon_bits(b),
{
    vstd::arithmetic::power2::lemma2_to64();
    byte_bits(b, 14);
    byte_bits(b, 15);
    byte_bits(b, 16);
    byte_bits(b, 17);
    byte_bits(b, 19);
    byte_bits(b, 20);
    byte_bits(b, 21);
    byte_bits(b, 22);
    bits_join(b, 119, 1, 8);
    bits_join(b, 119, 9, 8);
    bits_join(b, 119, 17, 7);
    bits_join(b, 152, 8, 8);
    bits_join(b, 152, 16, 8);
    bits_join(b, 152, 24, 1);
}

/// A long location report gives back the position that was put in it: for every latitude
/// up to the pole, in steps of two units, and every longitude up to 180 degrees, in their
/// places and not both zero, it decodes to exactly these. No other report decodes.
pub proof fn long_reports_give_back_the_place(b: Seq<u8>)
    ensures
        position::long_report(b) is Some <==> {
            &&& b.len() >= 23
            &&& b[0] == 0x83
            &&& long_lat_bits(b) != 0 || long_lon_bits(b) != 0
            &&& long_lat_bits(b) <= 0x40_0000
            &&& long_lon_bits(b) <= 0x100_0000
        },
        position::long_report(b) matches Some((lat, lon)) ==> {
            &&& lat == 2 * long_lat_bits(b)
            &&& lon == long_lon_bits(b)
            &&& 0 <= lat <= 0x80_0000
            &&& 0 <= lon <= 0x100_0000
        },
{
    if b.len() >= 23 {
        long_bits(b);
    }
}

/// Whether a character is the hexadecimal digit for a number below sixteen, in lower or
/// upper case.
pub open spec fn hex_digit_for(c: char, v: int) -> bool {
    ||| 0 <= v < 10 && c as int == 48 + v
    ||| 10 <= v < 16 && c as int == 87 + v
    ||| 10 <= v < 16 && c as int == 55 + v
}

proof fn hex_digit_is_worth(c: char, v: int)
    requires
        hex_digit_for(c, v),
    ensures
        position::is_hex(c),
        position::hex_value(c) == v,
        c != 'x' && c != 'X',
{
}

proof fn all_hex(s: Seq<char>, i: int)
    requires
        0 <= i <= s.len(),
        forall|k: int| 0 <= k < s.len() ==> position::is_hex(#[trigger] s[k]),
    ensures
        position::hex_digits(s, i) == s.subrange(i, s.len() as int),
    decreases s.len() - i,
{
    if i < s.len() {
        assert(position::is_hex(s[i]));
        if i + 1 < s.len() {
            assert(position::is_hex(s[i + 1]));
        }
        all_hex(s, i + 1);
        assert(seq![s[i]] + s.subrange(i + 1, s.len() as int) =~= s.subrange(i, s.len() as int));
    } else {
        assert(s.subrange(i, s.len() as int) =~= seq![]);
    }
}

/// A report that is spelled out in hexadecimal, two digits to a byte, decodes as its bytes
/// do.
pub proof fn hex_spelling_is_read_as_the_bytes(b: Seq<u8>, s: Seq<char>)
    requires
        b.len() > 0,
        s.len() == 2 * b.len(),
        forall|i: int|
            #![trigger b[i]]
            0 <= i < b.len() ==> hex_digit_for(s[2 * i], b[i] as int / 16) && hex_digit_for(
                s[2 * i + 1],
                b[i] as int % 16,
            ),
    ensures
        position::hex_report(s) == position::short_report(b),
{
    assert forall|k: int| 0 <= k < s.len() implies position::is_hex(#[trigger] s[k]) by {
        let i = k / 2;
        let x = b[i];
        if k % 2 == 0 {
            assert(k == 2 * i);
            hex_digit_is_worth(s[k], x as int / 16);
        } else {
            assert(k == 2 * i + 1);
            hex_digit_is_worth(s[k], x as int % 16);
        }
    }
    all_hex(s, 0);
    assert(s.subrange(0, s.len() as int) =~= s);
    let got = position::hex_bytes(s);
    assert forall|i: int| 0 <= i < b.len() implies got[i] == b[i] by {
        hex_digit_is_worth(s[2 * i], b[i] as int / 16);
        hex_digit_is_worth(s[2 * i + 1], b[i] as int % 16);
    }
    assert(got =~= b);
}

proof fn hex_digits_behind(a: Seq<char>, b: Seq<char>, j: int)
    requires
        0 <= j <= b.len(),
    ensures
        position::hex_digits(a + b, a.len() + j) == position::hex_digits(b, j),
    decreases b.len() - j,
{
    let s = a + b;
    if j < b.len() {
        assert(s[a.len() + j] == b[j]);
        if j + 1 < b.len() {
            assert(s[a.len() + j + 1] == b[j + 1]);
            if position::hex_mark(b, j) {
                hex_digits_behind(a, b, j + 2);
            }
        }
        hex_digits_behind(a, b, j + 1);
    }
}

proof fn hex_digits_join(a: Seq<char>, b: Seq<char>, i: int)
    requires
        0 <= i <= a.len(),
        b.len() > 0 ==> b[0] != 'x' && b[0] != 'X',
    ensures
        position::hex_digits(a + b, i) == position::hex_digits(a, i) + position::hex_digits(b, 0),
    decreases a.len() - i,
{
    let s = a + b;
    if i == a.len() {
        hex_digits_behind(a, b, 0);
        assert(position::hex_digits(a, i) =~= seq![]);
        assert(seq![] + position::hex_digits(b, 0) =~= position::hex_digits(b, 0));
    } else {
        assert(s[i] == a[i]);
        if i + 1 < a.len() {
            assert(s[i + 1] == a[i + 1]);
        } else if i + 1 < s.len() {
            assert(s[i + 1] == b[0]);
        }
        assert(position::hex_mark(s, i) == position::hex_mark(a, i));
        if position::hex_mark(a, i) {
            hex_digits_join(a, b, i + 2);
        } else {
            hex_digits_join(a, b, i + 1);
            if position::is_hex(a[i]) {
                assert(seq![a[i]] + (position::hex_digits(a, i + 1) + position::hex_digits(b, 0))
                    =~= (seq![a[i]] + position::hex_digits(a, i + 1)) + position::hex_digits(b, 0));
            }
        }
    }
}

/// In a hexadecimal spelling a character that is no digit, and `0x` in front, do not
/// matter. (An `x` is left out: behind a zero it takes that zero with it.)
pub proof fn hex_spelling_may_be_spaced(a: Seq<char>, c: char, b: Seq<char>)
    requires
        !position::is_hex(c),
        c != 'x' && c != 'X',
        b.len() > 0 ==> b[0] != 'x' && b[0] != 'X',
    ensures
        position::hex_report(a + seq![c] + b) == position::hex_report(a + b),
        position::hex_report(seq!['0', 'x'] + b) == position::hex_report(b),
{
    hex_digits_join(a + seq![c], b, 0);
    hex_digits_join(a, seq![c], 0);
    hex_digits_join(a, b, 0);
    reveal_with_fuel(position::hex_digits, 3);
    assert(position::hex_digits(seq![c], 0) =~= seq![]);
    assert(position::hex_digits(a, 0) + seq![] =~= position::hex_digits(a, 0));
    let mark = seq!['0', 'x'];
    hex_digits_behind(mark, b, 0);
    assert(position::hex_mark(mark + b, 0));
    assert(position::hex_digits(mark + b, 0) == position::hex_digits(mark + b, 2));
}

/// A place reads as a report where it stands in a message: the first short location report
/// counts, wherever it starts; without one, the first long location report.
pub proof fn first_report_counts(b: Seq<u8>, i: int)
    requires
        0 <= i < b.len(),
    ensures
        position::short_report(b.subrange(i, b.len() as int)) is Some && (forall|j: int|
            0 <= j < i ==> position::short_report(#[trigger] b.subrange(j, b.len() as int)) is None)
            ==> position::report_in(b) == position::short_report(b.subrange(i, b.len() as int)),
        position::long_report(b.subrange(i, b.len() as int)) is Some && (forall|j: int|
            0 <= j < b.len() ==> position::short_report(#[trigger] b.subrange(j, b.len() as int))
                is None) && (forall|j: int|
            0 <= j < i ==> position::long_report(#[trigger] b.subrange(j, b.len() as int)) is None)
            ==> position::report_in(b) == position::long_report(b.subrange(i, b.len() as int)),
        (forall|j: int|
            0 <= j < b.len() ==> position::short_report(#[trigger] b.subrange(j, b.len() as int))
                is None && position::long_report(b.subrange(j, b.len() as int)) is None)
            ==> position::report_in(b) is None,
{
    let n = b.len() as int;
    if position::short_report(b.subrange(i, n)) is Some && (forall|j: int|
        0 <= j < i ==> position::short_report(#[trigger] b.subrange(j, n)) is None) {
        short_in_starts(b, 0, i);
    }
    if forall|j: int|
        0 <= j < n ==> position::short_report(#[trigger] b.subrange(j, n)) is None {
        short_in_starts(b, 0, n);
        if position::long_report(b.subrange(i, n)) is Some && (forall|j: int|
            0 <= j < i ==> position::long_report(#[trigger] b.subrange(j, n)) is None) {
            long_in_starts(b, 0, i);
        }
    }
    if forall|j: int|
        0 <= j < n ==> position::short_report(#[trigger] b.subrange(j, n)) is None
            && position::long_report(b.subrange(j, n)) is None {
        assert forall|j: int| 0 <= j < n implies position::short_report(#[trigger] b.subrange(j, n))
            is None by {}
        assert forall|j: int| 0 <= j < n implies position::long_report(#[trigger] b.subrange(j, n))
            is None by {}
        short_in_starts(b, 0, n);
        long_in_starts(b, 0, n);
    }
}

proof fn short_in_starts(b: Seq<u8>, k: int, i: int)
    requires
        0 <= k <= i <= b.len(),
        forall|j: int|
            k <= j < i ==> position::short_report(#[trigger] b.subrange(j, b.len() as int)) is None,
    ensures
        position::short_in(b, k) == position::short_in(b, i),
    decreases i - k,
{
    if k < i {
        assert(position::short_report(b.subrange(k, b.len() as int)) is None);
        short_in_starts(b, k + 1, i);
    }
}

proof fn long_in_starts(b: Seq<u8>, k: int, i: int)
    requires
        0 <= k <= i <= b.len(),
        forall|j: int|
            k <= j < i ==> position::long_report(#[trigger] b.subrange(j, b.len() as int)) is None,
    ensures
        position::long_in(b, k) == position::long_in(b, i),
    decreases i - k,
{
    if k < i {
        assert(position::long_report(b.subrange(k, b.len() as int)) is None);
        long_in_starts(b, k + 1, i);
    }
}

/// The readable text of a message is that of its parts, one after another. A printable
/// ASCII byte stands for its character; any other byte for nothing.
pub proof fn readable_text_is_pieced_together(a: Seq<u8>, c: u8, b: Seq<u8>)
    ensures
        position::ascii_in(a + b) == position::ascii_in(a) + position::ascii_in(b),
        0x20 <= c <= 0x7e ==> position::ascii_in(seq![c]) == seq![c as char],
        !(0x20 <= c <= 0x7e) ==> position::ascii_in(seq![c]).len() == 0,
        position::ascii_in(Seq::empty()).len() == 0,
    decreases b.len(),
{
    reveal_with_fuel(position::ascii_in, 2);
    assert(seq![c].drop_last() =~= Seq::<u8>::empty());
    if 0x20 <= c <= 0x7e {
        assert(position::ascii_in(seq![c]) =~= seq![c as char]);
    }
    if b.len() == 0 {
        assert(a + b =~= a);
        assert(position::ascii_in(a) + position::ascii_in(b) =~= position::ascii_in(a));
    } else {
        readable_text_is_pieced_together(a, c, b.drop_last());
        assert((a + b).drop_last() =~= a + b.drop_last());
        assert((a + b).last() == b.last());
        if 0x20 <= b.last() <= 0x7e {
            assert(position::ascii_in(a + b) =~= position::ascii_in(a) + position::ascii_in(b));
        }
    }
}

/// Whether a character is a decimal digit.
pub open spec fn digit(c: char) -> bool {
    48 <= c as int <= 57
}

proof fn digits_are_passed(s: Seq<char>, i: int, e: int)
    requires
        0 <= i <= e <= s.len(),
        forall|k: int| i <= k < e ==> digit(#[trigger] s[k]),
        e < s.len() ==> !digit(s[e]),
    ensures
        position::skip_digits(s, i) == e,
    decreases e - i,
{
    if i < e {
        assert(digit(s[i]));
        digits_are_passed(s, i + 1, e);
    }
}

/// An angle that is written out: `width` digits of degrees, two digits of minutes, a
/// point, more digits up to `e`, and a letter.
pub open spec fn angle_written(s: Seq<char>, i: int, width: int, e: int) -> bool {
    &&& 0 <= i
    &&& i + width + 3 <= e < s.len()
    &&& forall|k: int| i <= k < i + width + 2 ==> digit(#[trigger] s[k])
    &&& s[i + width + 2] == '.'
    &&& forall|k: int| i + width + 3 <= k < e ==> digit(#[trigger] s[k])
}

proof fn angles_are_read(s: Seq<char>, i: int, width: int, e: int, plus: char, minus: char)
    requires
        angle_written(s, i, width, e),
        2 <= width <= 3,
        text::lower(s[e]) == plus || text::lower(s[e]) == minus,
        !digit(s[e]),
    ensures
        position::angle_at(s, i, width, plus, minus) == Some(
            (
                DegMinModel {
                    degrees: (if width == 2 {
                        10 * (s[i] as int - 48) + (s[i + 1] as int - 48)
                    } else {
                        100 * (s[i] as int - 48) + 10 * (s[i + 1] as int - 48) + (s[i + 2] as int
                            - 48)
                    }),
                    minutes: s.subrange(i + width, e),
                    negative: text::lower(s[e]) != plus,
                },
                e + 1,
            ),
        ),
{
    digits_are_passed(s, i + width + 3, e);
    assert forall|k: int| i <= k < i + width + 2 implies text::is_digit(#[trigger] s[k]) by {
        assert(digit(s[k]));
    }
    let d = s.subrange(i, i + width);
    reveal_with_fuel(text::digits_value, 4);
    assert(digit(s[i]) && digit(s[i + 1]) && digit(s[i + 2]));
    assert(d.last() == s[i + width - 1]);
    assert(d.drop_last().last() == s[i + width - 2]);
    if width == 3 {
        assert(d.drop_last().drop_last().last() == s[i]);
        assert(d.drop_last().drop_last().drop_last() =~= seq![]);
    } else {
        assert(d.drop_last().drop_last() =~= seq![]);
    }
}

proof fn aprs_search_goes_on(s: Seq<char>, i: int, to: int)
    requires
        0 <= i <= to <= s.len(),
        forall|k: int| i <= k < to ==> !digit(#[trigger] s[k]),
    ensures
        position::aprs_from(s, i) == position::aprs_from(s, to),
    decreases to - i,
{
    if i < to {
        assert(!digit(s[i]));
        assert(!position::digits_at(s, i, 4)) by {
            if position::digits_at(s, i, 4) {
                assert(text::is_digit(s[i]));
            }
        }
        aprs_search_goes_on(s, i + 1, to);
    }
}

proof fn ascii_is_narrow(c: char)
    requires
        (c as int) < 128,
    ensures
        (c as u32) < 128,
{
}

proof fn compass_letters_fold(c: char)
    ensures
        text::lower(c) == 'n' <==> c == 'N' || c == 'n',
        text::lower(c) == 's' <==> c == 'S' || c == 's',
        text::lower(c) == 'e' <==> c == 'E' || c == 'e',
        text::lower(c) == 'w' <==> c == 'W' || c == 'w',
{
}

/// An APRS position is read wherever it stands behind text without digits: two digits of
/// degrees, the minutes and `N` or `S`; one other ASCII character or none; three digits of
/// degrees, the minutes and `E` or `W`. North and east are positive, south and west
/// negative, in lower and upper case.
pub proof fn aprs_positions_are_read(s: Seq<char>, i: int, e: int, j: int, f: int)
    requires
        forall|k: int| 0 <= k < i ==> !digit(#[trigger] s[k]),
        angle_written(s, i, 2, e),
        s[e] == 'N' || s[e] == 'n' || s[e] == 'S' || s[e] == 's',
        j == e + 1 || (j == e + 2 && (s[e + 1] as int) < 128 && !digit(s[e + 1])),
        angle_written(s, j, 3, f),
        s[f] == 'E' || s[f] == 'e' || s[f] == 'W' || s[f] == 'w',
    ensures
        position::aprs_from(s, 0) == Some(
            (
                DegMinModel {
                    degrees: 10 * (s[i] as int - 48) + (s[i + 1] as int - 48),
                    minutes: s.subrange(i + 2, e),
                    negative: s[e] == 'S' || s[e] == 's',
                },
                DegMinModel {
                    degrees: 100 * (s[j] as int - 48) + 10 * (s[j + 1] as int - 48) + (s[j + 2] as int
                        - 48),
                    minutes: s.subrange(j + 3, f),
                    negative: s[f] == 'W' || s[f] == 'w',
                },
            ),
        ),
{
    aprs_search_goes_on(s, 0, i);
    angles_are_read(s, i, 2, e, 'n', 's');
    angles_are_read(s, j, 3, f, 'e', 'w');
    compass_letters_fold(s[e]);
    compass_letters_fold(s[f]);
    let (lat, _) = position::lat_at(s, i)->0;
    let (lon, _) = position::lon_at(s, j)->0;
    assert(position::lat_at(s, i) == Some((lat, e + 1)));
    assert(position::lon_at(s, j) == Some((lon, f + 1)));
    if j == e + 2 {
        assert(position::lon_at(s, e + 1) is None) by {
            if position::digits_at(s, e + 1, 5) {
                assert(text::is_digit(s[e + 1]));
            }
        }
        ascii_is_narrow(s[e + 1]);
    }
    assert(position::lon_behind(s, e + 1) == Some(lon));
    assert(position::aprs_from(s, i) == Some((lat, lon)));
}

/// Whether a number may start with a character: a sign or a digit.
pub open spec fn number_start(c: char) -> bool {
    c == '-' || c == '+' || digit(c)
}

/// A number that is written out from `a` to `b`: a sign or a digit, and then digits and at
/// most one point, with a digit among them.
pub open spec fn number_written(s: Seq<char>, a: int, b: int) -> bool {
    &&& 0 <= a < b <= s.len()
    &&& number_start(s[a])
    &&& forall|k: int| a < k < b ==> digit(#[trigger] s[k]) || s[k] == '.'
    &&& forall|k: int, l: int|
        a < k < l < b && #[trigger] s[k] == '.' && #[trigger] s[l] == '.' ==> false
    &&& exists|k: int| a <= k < b && digit(#[trigger] s[k])
    &&& b < s.len() ==> !digit(s[b]) && s[b] != '.'
}

/// The compass letter that a character is, in upper case.
pub open spec fn compass_of(c: char) -> Option<char> {
    if c == 'N' || c == 'n' {
        Some('N')
    } else if c == 'S' || c == 's' {
        Some('S')
    } else if c == 'E' || c == 'e' {
        Some('E')
    } else if c == 'W' || c == 'w' {
        Some('W')
    } else {
        None
    }
}

proof fn compass_is_folded(c: char)
    ensures
        position::compass_letter(c) == compass_of(c),
{
    compass_letters_fold(c);
}

proof fn run_is_read(s: Seq<char>, k: int, b: int, dot: bool)
    requires
        0 <= k <= b <= s.len(),
        forall|i: int| k <= i < b ==> digit(#[trigger] s[i]) || s[i] == '.',
        forall|i: int, l: int|
            k <= i < l < b && #[trigger] s[i] == '.' && #[trigger] s[l] == '.' ==> false,
        dot ==> forall|i: int| k <= i < b ==> #[trigger] s[i] != '.',
        b < s.len() ==> !digit(s[b]) && s[b] != '.',
    ensures
        position::run_end(s, k, dot) == b,
    decreases b - k,
{
    if k < b {
        assert(digit(s[k]) || s[k] == '.');
        if s[k] == '.' {
            assert forall|i: int| k + 1 <= i < b implies #[trigger] s[i] != '.' by {
                if s[i] == '.' {
                    assert(s[k] == '.' && s[i] == '.');
                }
            }
            run_is_read(s, k + 1, b, true);
        } else {
            run_is_read(s, k + 1, b, dot);
        }
    }
}

proof fn blanks_are_passed(s: Seq<char>, b: int, j: int)
    requires
        0 <= b <= j <= s.len(),
        forall|k: int| b <= k < j ==> position::is_blank(#[trigger] s[k]),
        j < s.len() ==> !position::is_blank(s[j]),
    ensures
        position::skip_blanks(s, b) == j,
    decreases j - b,
{
    if b < j {
        assert(position::is_blank(s[b]));
        blanks_are_passed(s, b + 1, j);
    }
}

proof fn number_search_goes_on(s: Seq<char>, i: int, to: int)
    requires
        0 <= i <= to <= s.len(),
        forall|k: int| i <= k < to ==> !number_start(#[trigger] s[k]),
    ensures
        position::numbers(s, i) == position::numbers(s, to),
    decreases to - i,
{
    if i < to {
        assert(!number_start(s[i]));
        number_search_goes_on(s, i + 1, to);
    }
}

proof fn first_number_is_read(s: Seq<char>, a: int, b: int, j: int)
    requires
        number_written(s, a, b),
        b <= j <= s.len(),
        forall|k: int| b <= k < j ==> position::is_blank(#[trigger] s[k]),
        j < s.len() ==> !position::is_blank(s[j]),
    ensures
        ({
            let compass = if j < s.len() {
                compass_of(s[j])
            } else {
                None
            };
            let next = if compass is Some {
                j + 1
            } else {
                b
            };
            position::numbers(s, a) == seq![
                NumberModel { spelling: s.subrange(a, b), compass },
            ] + position::numbers(s, next)
        }),
{
    run_is_read(s, a + 1, b, false);
    blanks_are_passed(s, b, j);
    if j < s.len() {
        compass_is_folded(s[j]);
    }
    let k = choose|k: int| a <= k < b && digit(#[trigger] s[k]);
    assert(s.subrange(a, b)[k - a] == s[k]);
    assert(text::is_digit(s.subrange(a, b)[k - a]));
}

/// Two decimal numbers are read as a position as they are written, the latitude first:
/// each with the compass letter behind it, perhaps after white space. What stands before,
/// between and behind them does not matter, and at least one of them has a point.
pub proof fn decimal_degrees_are_read(
    s: Seq<char>,
    a: int,
    b: int,
    j: int,
    c: int,
    d: int,
    l: int,
)
    requires
        forall|k: int| 0 <= k < a ==> !number_start(#[trigger] s[k]),
        number_written(s, a, b),
        b <= j < c,
        forall|k: int| b <= k < j ==> position::is_blank(#[trigger] s[k]),
        !position::is_blank(s[j]),
        forall|k: int| b <= k < c ==> !number_start(#[trigger] s[k]),
        number_written(s, c, d),
        d <= l <= s.len(),
        forall|k: int| d <= k < l ==> position::is_blank(#[trigger] s[k]),
        l < s.len() ==> !position::is_blank(s[l]),
        s.subrange(a, b).contains('.') || s.subrange(c, d).contains('.'),
    ensures
        position::decimal_pair(s) == Some(
            (
                NumberModel { spelling: s.subrange(a, b), compass: compass_of(s[j]) },
                NumberModel {
                    spelling: s.subrange(c, d),
                    compass: (if l < s.len() {
                        compass_of(s[l])
                    } else {
                        None
                    }),
                },
            ),
        ),
{
    number_search_goes_on(s, 0, a);
    first_number_is_read(s, a, b, j);
    let next = if compass_of(s[j]) is Some {
        j + 1
    } else {
        b
    };
    number_search_goes_on(s, next, c);
    first_number_is_read(s, c, d, l);
    let n = position::numbers(s, 0);
    assert(n[0] == NumberModel { spelling: s.subrange(a, b), compass: compass_of(s[j]) });
    assert(n.len() >= 2);
    assert(n[1] == position::numbers(s, c)[0]);
}

proof fn numbers_are_spelled_in_the_text(s: Seq<char>, i: int, k: int, c: char)
    requires
        0 <= k < position::numbers(s, i).len(),
        position::numbers(s, i)[k].spelling.contains(c),
    ensures
        s.contains(c),
    decreases s.len() - i,
{
    if i < 0 || i >= s.len() {
    } else if !position::starts_number(s[i]) {
        numbers_are_spelled_in_the_text(s, i + 1, k, c);
    } else {
        let e = position::run_end(s, i + 1, false);
        position::run_goes_forward(s, i + 1, false);
        position::blanks_go_forward(s, e);
        let spelling = s.subrange(i, e);
        if !position::some_digit(spelling) {
            numbers_are_spelled_in_the_text(s, e, k, c);
        } else {
            let j = position::skip_blanks(s, e);
            let compass = if j < s.len() {
                position::compass_letter(s[j])
            } else {
                None
            };
            let next = if compass is Some {
                j + 1
            } else {
                e
            };
            let n = seq![NumberModel { spelling, compass }] + position::numbers(s, next);
            assert(position::numbers(s, i) == n);
            if k == 0 {
                let at = choose|at: int| 0 <= at < spelling.len() && spelling[at] == c;
                assert(s[i + at] == c);
            } else {
                assert(n[k] == position::numbers(s, next)[k - 1]);
                numbers_are_spelled_in_the_text(s, next, k - 1, c);
            }
        }
    }
}

/// Whole numbers are no position: a text without a point has no decimal degrees.
pub proof fn whole_numbers_are_no_position(s: Seq<char>)
    requires
        !s.contains('.'),
    ensures
        position::decimal_pair(s) is None,
{
    let n = position::numbers(s, 0);
    if n.len() >= 2 {
        if n[0].spelling.contains('.') {
            numbers_are_spelled_in_the_text(s, 0, 0, '.');
        }
        if n[1].spelling.contains('.') {
            numbers_are_spelled_in_the_text(s, 0, 1, '.');
        }
    }
}

/// Whether a character is the letter with a number, counted from `A`, in either case.
pub open spec fn letter_for(c: char, n: int) -> bool {
    c as int == 65 + n || c as int == 97 + n
}

proof fn letters_are_numbered(c: char, n: int)
    requires
        letter_for(c, n),
    ensures
        0 <= n < 18 ==> position::field_number(c) == Some(n),
        0 <= n < 24 ==> position::subsquare_number(c) == Some(n),
        0 <= n < 24 ==> !text::is_space(c),
{
}

proof fn digits_are_numbered(c: char, n: int)
    requires
        c as int == 48 + n,
        0 <= n < 10,
    ensures
        text::is_digit(c),
        text::digit_value(c) == n,
        !text::is_space(c),
{
}

/// A grid locator names the square that a place lies in, and the centre of that square is
/// read from it: for every place, the locator with the place's field, square, subsquare
/// and extended square, as far as it goes, gives a centre at most half a square away.
/// Latitudes count in 1/480 of a degree, longitudes in 1/240.
pub proof fn locators_name_the_square(s: Seq<char>, lat: int, lon: int)
    requires
        -43200 <= lat < 43200,
        -43200 <= lon < 43200,
        s.len() == 4 || s.len() == 6 || s.len() == 8,
        letter_for(s[0], (lon + 43200) / 4800),
        letter_for(s[1], (lat + 43200) / 4800),
        s[2] as int == 48 + (lon + 43200) / 480 % 10,
        s[3] as int == 48 + (lat + 43200) / 480 % 10,
        s.len() >= 6 ==> letter_for(s[4], (lon + 43200) / 20 % 24) && letter_for(
            s[5],
            (lat + 43200) / 20 % 24,
        ),
        s.len() == 8 ==> s[6] as int == 48 + (lon + 43200) / 2 % 10 && s[7] as int == 48 + (lat
            + 43200) / 2 % 10,
    ensures
        ({
            let half = if s.len() == 4 {
                240int
            } else if s.len() == 6 {
                10
            } else {
                1
            };
            position::grid_centre(s) matches Some((y, x)) && -half <= lat - y < half && -half <= lon
                - x < half
        }),
{
    letters_are_numbered(s[0], (lon + 43200) / 4800);
    letters_are_numbered(s[1], (lat + 43200) / 4800);
    digits_are_numbered(s[2], (lon + 43200) / 480 % 10);
    digits_are_numbered(s[3], (lat + 43200) / 480 % 10);
    if s.len() >= 6 {
        letters_are_numbered(s[4], (lon + 43200) / 20 % 24);
        letters_are_numbered(s[5], (lat + 43200) / 20 % 24);
    }
    if s.len() == 8 {
        digits_are_numbered(s[6], (lon + 43200) / 2 % 10);
        digits_are_numbered(s[7], (lat + 43200) / 2 % 10);
    }
    assert(text::trim(s) == s) by {
        assert(!text::is_space(s[0]) && !text::is_space(s.last()));
    }
    assert(position::is_locator(s));
    locator_line(s, 1, lat + 43200);
    locator_line(s, 0, lon + 43200);
}

/// How the cells of the grid divide an axis.
proof fn cells_hold(z: int)
    requires
        0 <= z,
    ensures
        0 <= z - (4800 * (z / 4800) + 480 * (z / 480 % 10)) < 480,
        0 <= z - (4800 * (z / 4800) + 480 * (z / 480 % 10) + 20 * (z / 20 % 24)) < 20,
        0 <= z - (4800 * (z / 4800) + 480 * (z / 480 % 10) + 20 * (z / 20 % 24) + 2 * (z / 2 % 10))
            < 2,
{
    assert(z / 480 / 10 == z / 4800);
    assert(z / 20 / 24 == z / 480);
    assert(z / 2 / 10 == z / 20);
}

proof fn locator_line(s: Seq<char>, k: int, z: int)
    requires
        0 <= k <= 1,
        0 <= z,
        s.len() == 4 || s.len() == 6 || s.len() == 8,
        position::field_number(s[k]) == Some(z / 4800),
        text::digit_value(s[2 + k]) == z / 480 % 10,
        s.len() >= 6 ==> position::subsquare_number(s[4 + k]) == Some(z / 20 % 24),
        s.len() == 8 ==> text::digit_value(s[6 + k]) == z / 2 % 10,
    ensures
        s.len() == 4 ==> -240 <= z - position::grid_line(s, k) < 240,
        s.len() == 6 ==> -10 <= z - position::grid_line(s, k) < 10,
        s.len() == 8 ==> -1 <= z - position::grid_line(s, k) < 1,
{
    cells_hold(z);
}

/// Words are parted by white space, commas and semicolons, and the first one that is a
/// grid locator counts.
pub proof fn first_locator_counts(s: Seq<char>, i: int, e: int)
    requires
        0 <= i <= e <= s.len(),
        forall|k: int|
            i <= k < e ==> !text::is_space(#[trigger] s[k]) && s[k] != ',' && s[k] != ';',
        e < s.len() ==> text::is_space(s[e]) || s[e] == ',' || s[e] == ';',
    ensures
        position::grid_centre(s.subrange(i, e)) is Some ==> position::first_locator(s, i)
            == position::grid_centre(s.subrange(i, e)),
        position::grid_centre(s.subrange(i, e)) is None && e < s.len() ==> position::first_locator(
            s,
            i,
        ) == position::first_locator(s, e + 1),
        position::grid_centre(s.subrange(i, e)) is None && e == s.len() ==> position::first_locator(
            s,
            i,
        ) is None,
{
    word_is_read(s, i, e);
}

proof fn word_is_read(s: Seq<char>, i: int, e: int)
    requires
        0 <= i <= e <= s.len(),
        forall|k: int|
            i <= k < e ==> !text::is_space(#[trigger] s[k]) && s[k] != ',' && s[k] != ';',
        e < s.len() ==> text::is_space(s[e]) || s[e] == ',' || s[e] == ';',
    ensures
        position::word_end(s, i) == e,
    decreases e - i,
{
    if i < e {
        assert(!text::is_space(s[i]));
        word_is_read(s, i + 1, e);
    }
}

/// The readings of a text are those it has, in the order of how much they tell: degrees
/// and minutes, then decimal degrees, then a grid locator. White space around the text
/// does not matter.
pub proof fn readings_are_in_order(s: Seq<char>)
    ensures
        position::readings(s).len() <= 3,
        position::readings(s).len() > 0 && position::aprs_from(text::trim(s), 0) is Some
            ==> position::readings(s)[0] is Aprs,
        position::readings(s).len() > 0 && position::readings(s)[0] is Grid ==> position::aprs_from(
            text::trim(s),
            0,
        ) is None && position::decimal_pair(text::trim(s)) is None,
        forall|i: int, j: int|
            0 <= i < j < position::readings(s).len() ==> rank(
                #[trigger] position::readings(s)[i],
            ) < rank(#[trigger] position::readings(s)[j]),
        position::readings(s).len() == 0 <==> position::aprs_from(text::trim(s), 0) is None
            && position::decimal_pair(text::trim(s)) is None && position::first_locator(
            text::trim(s),
            0,
        ) is None,
{
}

/// How early a reading comes.
pub open spec fn rank(c: CandidateModel) -> int {
    match c {
        CandidateModel::Aprs(..) => 0,
        CandidateModel::Decimal(..) => 1,
        CandidateModel::Grid(..) => 2,
    }
}

/// Blank, tab, line feed, carriage return and form feed are white space between the parts
/// of a position, and nothing else is.
pub proof fn blanks_part_a_position(c: char)
    ensures
        position::is_blank(c) <==> c as int == 32 || c as int == 9 || c as int == 10 || c as int
            == 13 || c as int == 12,
{
}

/// An APRS position may have any amount of white space between its parts.
pub proof fn aprs_positions_may_be_spaced(s: Seq<char>, i: int, e: int, j: int, f: int)
    requires
        forall|k: int| 0 <= k < i ==> !digit(#[trigger] s[k]),
        angle_written(s, i, 2, e),
        s[e] == 'N' || s[e] == 'n' || s[e] == 'S' || s[e] == 's',
        j > e + 2,
        forall|k: int| e < k < j ==> position::is_blank(#[trigger] s[k]),
        angle_written(s, j, 3, f),
        s[f] == 'E' || s[f] == 'e' || s[f] == 'W' || s[f] == 'w',
    ensures
        position::aprs_from(s, 0) matches Some((lat, lon)) && lat.degrees == 10 * (s[i] as int - 48)
            + (s[i + 1] as int - 48) && lat.minutes == s.subrange(i + 2, e) && lat.negative == (s[e]
            == 'S' || s[e] == 's') && lon.degrees == 100 * (s[j] as int - 48) + 10 * (s[j + 1] as int
            - 48) + (s[j + 2] as int - 48) && lon.minutes == s.subrange(j + 3, f) && lon.negative
            == (s[f] == 'W' || s[f] == 'w'),
{
    aprs_search_goes_on(s, 0, i);
    angles_are_read(s, i, 2, e, 'n', 's');
    angles_are_read(s, j, 3, f, 'e', 'w');
    compass_letters_fold(s[e]);
    compass_letters_fold(s[f]);
    let (lat, _) = position::lat_at(s, i)->0;
    let (lon, _) = position::lon_at(s, j)->0;
    assert(position::lat_at(s, i) == Some((lat, e + 1)));
    assert(position::lon_at(s, j) == Some((lon, f + 1)));
    assert(position::is_blank(s[e + 1]) && position::is_blank(s[e + 2]));
    blanks_are_no_digits(s[e + 1]);
    blanks_are_no_digits(s[e + 2]);
    assert(position::lon_at(s, e + 1) is None) by {
        if position::digits_at(s, e + 1, 5) {
            assert(text::is_digit(s[e + 1]));
        }
    }
    assert(position::lon_at(s, e + 2) is None) by {
        if position::digits_at(s, e + 2, 5) {
            assert(text::is_digit(s[e + 2]));
        }
    }
    assert(digit(s[j]));
    blanks_are_no_digits(s[j]);
    blanks_are_passed(s, e + 1, j);
    assert(position::lon_behind(s, e + 1) == Some(lon));
    assert(position::aprs_from(s, i) == Some((lat, lon)));
}

proof fn blanks_are_no_digits(c: char)
    ensures
        position::is_blank(c) ==> !text::is_digit(c) && !digit(c),
{
}

} // verus!

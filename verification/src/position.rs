//! Positions of mobile stations: binary location reports, and coordinates that
//! stand in the text of a message.
//!
//! Angles of a binary report are whole numbers of 180/2^24 degrees. Coordinates
//! in text are found here and handed out as they are spelled; turning a spelling
//! into a fraction of a degree, and rejecting what is no place on earth, is left
//! to the caller.
use crate::text;
use crate::text::{chars_of, is_space_char, slice_text, trim_chars};
use vstd::prelude::*;

verus! {

/// A bit of a run of bytes, the most significant bit of a byte first.
pub open spec fn bit(b: Seq<u8>, i: int) -> int {
    ((b[i / 8] >> ((7 - i % 8) as u8)) & 1) as int
}

/// The number that `n` bits spell.
pub open spec fn bits(b: Seq<u8>, start: int, n: nat) -> nat
    decreases n,
{
    if n == 0 {
        0
    } else {
        (2 * bits(b, start, (n - 1) as nat) + bit(b, start + n - 1)) as nat
    }
}

/// The number that bits spell in two's complement, the sign bit being worth `half`.
pub open spec fn signed(v: int, half: int) -> int {
    if v >= half {
        v - 2 * half
    } else {
        v
    }
}

proof fn bits_are_bounded(b: Seq<u8>, start: int, n: nat)
    ensures
        bits(b, start, n) < vstd::arithmetic::power2::pow2(n),
    decreases n,
{
    if n == 0 {
        vstd::arithmetic::power2::lemma2_to64();
    } else {
        bits_are_bounded(b, start, (n - 1) as nat);
        vstd::arithmetic::power2::lemma_pow2_unfold(n);
        let x = b[(start + n - 1) / 8];
        let k = (7 - (start + n - 1) % 8) as u8;
        assert((x >> k) & 1 <= 1) by (bit_vector);
    }
}

fn take_bits(b: &[u8], start: usize, n: usize) -> (r: u32)
    requires
        start + n <= 8 * b@.len(),
        start + n <= 1000,
        n <= 25,
    ensures
        r == bits(b@, start as int, n as nat),
        r < vstd::arithmetic::power2::pow2(n as nat),
{
    let mut v: u32 = 0;
    let mut k: usize = 0;
    while k < n
        invariant
            k <= n <= 25,
            start + n <= 1000,
            start + n <= 8 * b@.len(),
            v == bits(b@, start as int, k as nat),
        decreases n - k,
    {
        proof {
            bits_are_bounded(b@, start as int, k as nat);
            vstd::arithmetic::power2::lemma2_to64();
            if k < 24 {
                vstd::arithmetic::power2::lemma_pow2_strictly_increases(k as nat, 24);
            }
        }
        let i: usize = start + k;
        let x: u8 = b[i / 8];
        let shift: u8 = 7 - (i % 8) as u8;
        assert((x >> shift) & 1 <= 1) by (bit_vector);
        v = 2 * v + ((x >> shift) & 1) as u32;
        k = k + 1;
    }
    proof {
        bits_are_bounded(b@, start as int, n as nat);
    }
    v
}

/// A position in units of 180/2^24 degrees, north and east being positive.
#[derive(Debug, Clone, Copy, PartialEq, Eq, Structural)]
pub struct LipFix {
    pub lat: i32,
    pub lon: i32,
}

/// The position in a LIP short location report: after the protocol identifier
/// `0x0A`, two zero bits of PDU type, two of elapsed time, the longitude in 25
/// bits and the latitude in 24. A report that holds zero for both has no fix.
pub open spec fn short_report(b: Seq<u8>) -> Option<(int, int)> {
    if b.len() < 8 || b[0] != 0x0A {
        None
    } else {
        let pdu = b.subrange(1, b.len() as int);
        let lon = bits(pdu, 4, 25);
        let lat = bits(pdu, 29, 24);
        if bits(pdu, 0, 2) != 0 || (lon == 0 && lat == 0) {
            None
        } else {
            Some((signed(lat as int, 0x80_0000), signed(lon as int, 0x100_0000)))
        }
    }
}

/// The position in the long location report of some radios: after the header byte
/// `0x83`, the latitude in 24 bits from bit 119, in units of 180/2^23 degrees, and
/// the longitude in 25 bits from bit 152. Zero for both means no fix, and a
/// latitude over 90 or a longitude over 180 degrees is none.
pub open spec fn long_report(b: Seq<u8>) -> Option<(int, int)> {
    if b.len() < 23 || b[0] != 0x83 {
        None
    } else {
        let lat = bits(b, 119, 24);
        let lon = bits(b, 152, 25);
        if (lat == 0 && lon == 0) || lat > 0x40_0000 || lon > 0x100_0000 {
            None
        } else {
            Some((2 * lat as int, lon as int))
        }
    }
}

/// What a fix is as a pair of numbers.
pub open spec fn fix_pair(f: Option<LipFix>) -> Option<(int, int)> {
    match f {
        Some(f) => Some((f.lat as int, f.lon as int)),
        None => None,
    }
}

/// Whether a fix is a place on earth: at most 90 degrees north or south and at
/// most 180 degrees east or west.
pub open spec fn on_earth(f: LipFix) -> bool {
    -0x80_0000 <= f.lat <= 0x80_0000 && -0x100_0000 <= f.lon <= 0x100_0000
}

/// Decodes a LIP short location report.
pub fn decode_lip(b: &[u8]) -> (r: Option<LipFix>)
    ensures
        fix_pair(r) == short_report(b@),
        r matches Some(f) ==> short_report(b@) == Some((f.lat as int, f.lon as int)),
        r matches Some(f) ==> on_earth(f),
{
    if b.len() < 8 || b[0] != 0x0A {
        return None;
    }
    let pdu = vstd::slice::slice_subrange(b, 1, b.len());
    proof {
        vstd::arithmetic::power2::lemma2_to64();
    }
    if take_bits(pdu, 0, 2) != 0 {
        return None;
    }
    let lon: u32 = take_bits(pdu, 4, 25);
    let lat: u32 = take_bits(pdu, 29, 24);
    if lon == 0 && lat == 0 {
        return None;
    }
    let lat: i32 = if lat >= 0x80_0000 {
        lat as i32 - 0x100_0000
    } else {
        lat as i32
    };
    let lon: i32 = if lon >= 0x100_0000 {
        lon as i32 - 0x200_0000
    } else {
        lon as i32
    };
    Some(LipFix { lat, lon })
}

/// Decodes the long location report of some radios.
pub fn decode_lip_long(b: &[u8]) -> (r: Option<LipFix>)
    ensures
        fix_pair(r) == long_report(b@),
        r matches Some(f) ==> long_report(b@) == Some((f.lat as int, f.lon as int)),
        r matches Some(f) ==> on_earth(f),
{
    if b.len() < 23 || b[0] != 0x83 {
        return None;
    }
    proof {
        vstd::arithmetic::power2::lemma2_to64();
    }
    let lat: u32 = take_bits(b, 119, 24);
    let lon: u32 = take_bits(b, 152, 25);
    if (lat == 0 && lon == 0) || lat > 0x40_0000 || lon > 0x100_0000 {
        return None;
    }
    Some(LipFix { lat: 2 * lat as i32, lon: lon as i32 })
}

/// Whether a character is a hexadecimal digit.
pub open spec fn is_hex(c: char) -> bool {
    '0' <= c <= '9' || 'a' <= c <= 'f' || 'A' <= c <= 'F'
}

/// What a hexadecimal digit is worth.
pub open spec fn hex_value(c: char) -> int {
    if '0' <= c <= '9' {
        c as int - '0' as int
    } else if 'a' <= c <= 'f' {
        c as int - 'a' as int + 10
    } else {
        c as int - 'A' as int + 10
    }
}

/// Whether `0x` stands at position `i`, which says that hexadecimal digits follow.
pub open spec fn hex_mark(s: Seq<char>, i: int) -> bool {
    i + 1 < s.len() && s[i] == '0' && (s[i + 1] == 'x' || s[i + 1] == 'X')
}

/// The hexadecimal digits of a text from `i` on, in order, without the `0x` in front of
/// them.
pub open spec fn hex_digits(s: Seq<char>, i: int) -> Seq<char>
    decreases s.len() - i,
{
    if i < 0 || i >= s.len() {
        seq![]
    } else if hex_mark(s, i) {
        hex_digits(s, i + 2)
    } else if is_hex(s[i]) {
        seq![s[i]] + hex_digits(s, i + 1)
    } else {
        hex_digits(s, i + 1)
    }
}

/// The bytes that pairs of hexadecimal digits spell.
pub open spec fn hex_bytes(d: Seq<char>) -> Seq<u8> {
    Seq::new(d.len() / 2, |i: int| (16 * hex_value(d[2 * i]) + hex_value(d[2 * i + 1])) as u8)
}

/// What a hexadecimal spelling of a short location report decodes to. Characters
/// that are no hexadecimal digits, and each `0x`, are passed over.
pub open spec fn hex_report(s: Seq<char>) -> Option<(int, int)> {
    let d = hex_digits(s, 0);
    if d.len() < 2 || d.len() % 2 != 0 {
        None
    } else {
        short_report(hex_bytes(d))
    }
}

fn nibble(c: char) -> (r: Option<u8>)
    ensures
        r == (if is_hex(c) {
            Some(hex_value(c) as u8)
        } else {
            None::<u8>
        }),
        r matches Some(v) ==> v < 16 && v == hex_value(c),
{
    if '0' <= c && c <= '9' {
        Some((c as u32 - '0' as u32) as u8)
    } else if 'a' <= c && c <= 'f' {
        Some((c as u32 - 'a' as u32 + 10) as u8)
    } else if 'A' <= c && c <= 'F' {
        Some((c as u32 - 'A' as u32 + 10) as u8)
    } else {
        None
    }
}

/// Decodes a LIP short location report that is spelled in hexadecimal, with or without
/// spaces and `0x`.
pub fn decode_lip_hex(hex: &str) -> (r: Option<LipFix>)
    ensures
        fix_pair(r) == hex_report(hex@),
        r matches Some(f) ==> hex_report(hex@) == Some((f.lat as int, f.lon as int)),
        r matches Some(f) ==> on_earth(f),
{
    let s = chars_of(hex);
    let mut values: Vec<u8> = Vec::new();
    let ghost mut got: Seq<char> = seq![];
    let mut i: usize = 0;
    assert(got + hex_digits(s@, 0) =~= hex_digits(s@, 0));
    while i < s.len()
        invariant
            i <= s.len(),
            hex_digits(s@, 0) == got + hex_digits(s@, i as int),
            values@.len() == got.len(),
            forall|k: int|
                0 <= k < values@.len() ==> (#[trigger] values@[k]) < 16 && values@[k] == hex_value(
                    got[k],
                ),
        decreases s.len() - i,
    {
        if i + 1 < s.len() && s[i] == '0' && (s[i + 1] == 'x' || s[i + 1] == 'X') {
            i = i + 2;
        } else {
            if let Some(v) = nibble(s[i]) {
                values.push(v);
                proof {
                    let c = s@[i as int];
                    let rest = hex_digits(s@, i + 1);
                    assert(got + (seq![c] + rest) =~= got.push(c) + rest);
                    got = got.push(c);
                }
            }
            i = i + 1;
        }
    }
    assert(got =~= hex_digits(s@, 0));
    if values.len() < 2 || values.len() % 2 != 0 {
        return None;
    }
    let ghost d = hex_digits(hex@, 0);
    let mut bytes: Vec<u8> = Vec::new();
    let mut k: usize = 0;
    while k < values.len()
        invariant
            k <= values@.len(),
            k % 2 == 0,
            values@.len() % 2 == 0,
            values@.len() == d.len(),
            bytes@.len() == k / 2,
            forall|j: int|
                0 <= j < values@.len() ==> (#[trigger] values@[j]) < 16 && values@[j] == hex_value(
                    d[j],
                ),
            forall|j: int| 0 <= j < bytes@.len() ==> #[trigger] bytes@[j] == hex_bytes(d)[j],
        decreases values.len() - k,
    {
        let high: u8 = values[k];
        let low: u8 = values[k + 1];
        bytes.push(16 * high + low);
        assert(d[2 * (k / 2)] == d[k as int]);
        k = k + 2;
    }
    assert(bytes@ =~= hex_bytes(d));
    decode_lip(&bytes)
}

/// Degrees and minutes as a position report spells them. `minutes` is two digits,
/// perhaps with a point and more digits; `negative` is south or west.
#[derive(Debug, Clone)]
pub struct DegMin {
    pub degrees: u32,
    pub minutes: String,
    pub negative: bool,
}

#[verifier::ext_equal]
pub struct DegMinModel {
    pub degrees: int,
    pub minutes: Seq<char>,
    pub negative: bool,
}

impl View for DegMin {
    type V = DegMinModel;

    open spec fn view(&self) -> DegMinModel {
        DegMinModel {
            degrees: self.degrees as int,
            minutes: self.minutes@,
            negative: self.negative,
        }
    }
}

/// Whether `n` digits stand at a place.
pub open spec fn digits_at(s: Seq<char>, i: int, n: int) -> bool {
    0 <= i && i + n <= s.len() && forall|k: int| i <= k < i + n ==> text::is_digit(#[trigger] s[k])
}

/// The first place from `i` on that holds no digit.
pub open spec fn skip_digits(s: Seq<char>, i: int) -> int
    decreases s.len() - i,
{
    if i < s.len() && text::is_digit(s[i]) {
        skip_digits(s, i + 1)
    } else {
        i
    }
}

/// Where minutes end whose two digits end at `k`.
pub open spec fn minutes_end(s: Seq<char>, k: int) -> int {
    if k < s.len() && s[k] == '.' {
        skip_digits(s, k + 1)
    } else {
        k
    }
}

/// The angle at a place, and the place behind it: `width` digits of degrees, the
/// minutes, and a letter, either `plus` or `minus` in lower or upper case.
pub open spec fn angle_at(
    s: Seq<char>,
    i: int,
    width: int,
    plus: char,
    minus: char,
) -> Option<(DegMinModel, int)> {
    let k = minutes_end(s, i + width + 2);
    if digits_at(s, i, width + 2) && k < s.len() && (text::lower(s[k]) == plus || text::lower(s[k])
        == minus) {
        Some(
            (
                DegMinModel {
                    degrees: text::digits_value(s.subrange(i, i + width)) as int,
                    minutes: s.subrange(i + width, k),
                    negative: text::lower(s[k]) != plus,
                },
                k + 1,
            ),
        )
    } else {
        None
    }
}

/// A latitude `DDMM.mmN` at a place.
pub open spec fn lat_at(s: Seq<char>, i: int) -> Option<(DegMinModel, int)> {
    angle_at(s, i, 2, 'n', 's')
}

/// A longitude `DDDMM.mmE` at a place.
pub open spec fn lon_at(s: Seq<char>, i: int) -> Option<(DegMinModel, int)> {
    angle_at(s, i, 3, 'e', 'w')
}

/// ASCII white space.
pub open spec fn is_blank(c: char) -> bool {
    c == ' ' || c == '\t' || c == '\n' || c == '\r' || c == '\x0C'
}

/// The first place from `i` on that holds no ASCII white space.
pub open spec fn skip_blanks(s: Seq<char>, i: int) -> int
    decreases s.len() - i,
{
    if i < s.len() && is_blank(s[i]) {
        skip_blanks(s, i + 1)
    } else {
        i
    }
}

/// The longitude that belongs to a latitude which ends at `e`: right behind it,
/// behind one ASCII character, or behind white space.
pub open spec fn lon_behind(s: Seq<char>, e: int) -> Option<DegMinModel> {
    match lon_at(s, e) {
        Some((lon, _)) => Some(lon),
        None => match (if e < s.len() && (s[e] as u32) < 128 {
            lon_at(s, e + 1)
        } else {
            None
        }) {
            Some((lon, _)) => Some(lon),
            None => match lon_at(s, skip_blanks(s, e)) {
                Some((lon, _)) => Some(lon),
                None => None,
            },
        },
    }
}

/// The first latitude from `i` on that a longitude belongs to, with it.
pub open spec fn aprs_from(s: Seq<char>, i: int) -> Option<(DegMinModel, DegMinModel)>
    decreases s.len() - i,
{
    if i >= s.len() {
        None
    } else {
        match lat_at(s, i) {
            Some((lat, e)) => match lon_behind(s, e) {
                Some(lon) => Some((lat, lon)),
                None => aprs_from(s, i + 1),
            },
            None => aprs_from(s, i + 1),
        }
    }
}

fn is_digit_char(c: char) -> (r: bool)
    ensures
        r == text::is_digit(c),
{
    '0' <= c && c <= '9'
}

fn past_digits(s: &[char], i: usize) -> (r: usize)
    requires
        i <= s@.len(),
    ensures
        r == skip_digits(s@, i as int),
        i <= r <= s@.len(),
{
    let mut k: usize = i;
    while k < s.len() && is_digit_char(s[k])
        invariant
            i <= k <= s@.len(),
            skip_digits(s@, i as int) == skip_digits(s@, k as int),
        decreases s.len() - k,
    {
        k = k + 1;
    }
    k
}

fn past_blanks(s: &[char], i: usize) -> (r: usize)
    requires
        i <= s@.len(),
    ensures
        r == skip_blanks(s@, i as int),
        i <= r <= s@.len(),
{
    let mut k: usize = i;
    while k < s.len() && is_blank_char(s[k])
        invariant
            i <= k <= s@.len(),
            skip_blanks(s@, i as int) == skip_blanks(s@, k as int),
        decreases s.len() - k,
    {
        k = k + 1;
    }
    k
}

fn is_blank_char(c: char) -> (r: bool)
    ensures
        r == is_blank(c),
{
    c == ' ' || c == '\t' || c == '\n' || c == '\r' || c == '\x0C'
}

/// What an angle and the place behind it are.
pub open spec fn angle_model(r: Option<(DegMin, usize)>) -> Option<(DegMinModel, int)> {
    match r {
        Some((a, e)) => Some((a@, e as int)),
        None => None,
    }
}

fn read_angle(s: &[char], i: usize, width: usize, plus: char, minus: char) -> (r: Option<
    (DegMin, usize),
>)
    requires
        1 <= width <= 3,
    ensures
        angle_model(r) == angle_at(s@, i as int, width as int, plus, minus),
        r matches Some((_, e)) ==> e <= s@.len(),
{
    let n: usize = s.len();
    if i > n || n - i < width + 2 {
        return None;
    }
    let mut degrees: u32 = 0;
    let mut k: usize = 0;
    while k < width + 2
        invariant
            n == s@.len(),
            1 <= width <= 3,
            k <= width + 2,
            i + width + 2 <= n,
            forall|j: int| i <= j < i + k ==> text::is_digit(#[trigger] s@[j]),
            degrees == text::digits_value(
                s@.subrange(i as int, i + (if k <= width {
                    k
                } else {
                    width
                })),
            ),
            degrees <= (if k == 0 {
                0int
            } else if k == 1 {
                9
            } else if k == 2 {
                99
            } else {
                999
            }),
        decreases width + 2 - k,
    {
        if !is_digit_char(s[i + k]) {
            return None;
        }
        if k < width {
            assert(s@.subrange(i as int, i + k + 1).drop_last() =~= s@.subrange(
                i as int,
                i + k,
            ));
            degrees = 10 * degrees + (s[i + k] as u32 - '0' as u32);
        }
        k = k + 1;
    }
    let mut end: usize = i + width + 2;
    if end < n && s[end] == '.' {
        end = past_digits(s, end + 1);
    }
    if end >= n {
        return None;
    }
    let letter = text::lower_char(s[end]);
    if letter == plus || letter == minus {
        let minutes = slice_text(s, i + width, end);
        Some((DegMin { degrees, minutes, negative: letter != plus }, end + 1))
    } else {
        None
    }
}

/// What a latitude and a longitude are.
pub open spec fn pair_model(r: Option<(DegMin, DegMin)>) -> Option<(DegMinModel, DegMinModel)> {
    match r {
        Some((a, b)) => Some((a@, b@)),
        None => None,
    }
}

fn read_lon_behind(s: &[char], e: usize) -> (r: Option<DegMin>)
    requires
        e <= s@.len(),
    ensures
        (match r {
            Some(lon) => Some(lon@),
            None => None,
        }) == lon_behind(s@, e as int),
{
    if let Some((lon, _)) = read_angle(s, e, 3, 'e', 'w') {
        return Some(lon);
    }
    if e < s.len() && (s[e] as u32) < 128 {
        if let Some((lon, _)) = read_angle(s, e + 1, 3, 'e', 'w') {
            return Some(lon);
        }
    }
    let j: usize = past_blanks(s, e);
    if let Some((lon, _)) = read_angle(s, j, 3, 'e', 'w') {
        return Some(lon);
    }
    None
}

/// Finds an uncompressed APRS position, such as `4426.12N/02606.55E`.
pub fn parse_aprs(s: &[char]) -> (r: Option<(DegMin, DegMin)>)
    ensures
        pair_model(r) == aprs_from(s@, 0),
{
    let mut i: usize = 0;
    while i < s.len()
        invariant
            i <= s@.len(),
            aprs_from(s@, 0) == aprs_from(s@, i as int),
        decreases s.len() - i,
    {
        if let Some((lat, e)) = read_angle(s, i, 2, 'n', 's') {
            if let Some(lon) = read_lon_behind(s, e) {
                return Some((lat, lon));
            }
        }
        i = i + 1;
    }
    None
}

/// A decimal number as a text spells it, with the compass letter behind it.
#[derive(Debug, Clone)]
pub struct Number {
    pub spelling: String,
    pub compass: Option<char>,
}

#[verifier::ext_equal]
pub struct NumberModel {
    pub spelling: Seq<char>,
    pub compass: Option<char>,
}

impl View for Number {
    type V = NumberModel;

    open spec fn view(&self) -> NumberModel {
        NumberModel { spelling: self.spelling@, compass: self.compass }
    }
}

pub open spec fn number_models(v: Seq<Number>) -> Seq<NumberModel> {
    Seq::new(v.len(), |i: int| v[i]@)
}

/// Where a run of digits with at most one point ends; `dot` says that the point is
/// spent.
pub open spec fn run_end(s: Seq<char>, i: int, dot: bool) -> int
    decreases s.len() - i,
{
    if i >= s.len() {
        i
    } else if text::is_digit(s[i]) {
        run_end(s, i + 1, dot)
    } else if s[i] == '.' && !dot {
        run_end(s, i + 1, true)
    } else {
        i
    }
}

/// Whether a run of characters holds a digit.
pub open spec fn some_digit(s: Seq<char>) -> bool {
    exists|i: int| 0 <= i < s.len() && text::is_digit(#[trigger] s[i])
}

/// A compass letter in upper case.
pub open spec fn compass_letter(c: char) -> Option<char> {
    let l = text::lower(c);
    if l == 'n' {
        Some('N')
    } else if l == 's' {
        Some('S')
    } else if l == 'e' {
        Some('E')
    } else if l == 'w' {
        Some('W')
    } else {
        None
    }
}

/// Whether a number may start with a character.
pub open spec fn starts_number(c: char) -> bool {
    c == '-' || c == '+' || text::is_digit(c)
}

/// The numbers of a text from `i` on.
pub open spec fn numbers(s: Seq<char>, i: int) -> Seq<NumberModel>
    decreases s.len() - i,
{
    if i < 0 || i >= s.len() {
        seq![]
    } else if !starts_number(s[i]) {
        numbers(s, i + 1)
    } else {
        let e = run_end(s, i + 1, false);
        proof {
            run_goes_forward(s, i + 1, false);
            blanks_go_forward(s, e);
        }
        let spelling = s.subrange(i, e);
        if !some_digit(spelling) {
            numbers(s, e)
        } else {
            let j = skip_blanks(s, e);
            let compass = if j < s.len() {
                compass_letter(s[j])
            } else {
                None
            };
            let next = if compass is Some {
                j + 1
            } else {
                e
            };
            seq![NumberModel { spelling, compass }] + numbers(s, next)
        }
    }
}

/// The first two numbers of a text, where at least one of them has a point: a pair of
/// whole numbers is no position.
pub open spec fn decimal_pair(s: Seq<char>) -> Option<(NumberModel, NumberModel)> {
    let n = numbers(s, 0);
    if n.len() >= 2 && (n[0].spelling.contains('.') || n[1].spelling.contains('.')) {
        Some((n[0], n[1]))
    } else {
        None
    }
}

/// A run ends where it starts or later.
pub proof fn run_goes_forward(s: Seq<char>, i: int, dot: bool)
    ensures
        i <= run_end(s, i, dot),
        i <= s.len() ==> run_end(s, i, dot) <= s.len(),
    decreases s.len() - i,
{
    if i < s.len() {
        run_goes_forward(s, i + 1, dot);
        run_goes_forward(s, i + 1, true);
    }
}

/// White space ends where it starts or later.
pub proof fn blanks_go_forward(s: Seq<char>, i: int)
    ensures
        i <= skip_blanks(s, i),
    decreases s.len() - i,
{
    if i < s.len() {
        blanks_go_forward(s, i + 1);
    }
}

fn compass_of(c: char) -> (r: Option<char>)
    ensures
        r == compass_letter(c),
{
    let l = text::lower_char(c);
    if l == 'n' {
        Some('N')
    } else if l == 's' {
        Some('S')
    } else if l == 'e' {
        Some('E')
    } else if l == 'w' {
        Some('W')
    } else {
        None
    }
}

/// End of a run of digits with at most one point, and whether it has the point and
/// a digit.
fn read_run(s: &[char], i: usize) -> (r: (usize, bool, bool))
    requires
        i < s@.len(),
        starts_number(s@[i as int]),
    ensures
        r.0 == run_end(s@, i + 1, false),
        i < r.0 <= s@.len(),
        r.1 == s@.subrange(i as int, r.0 as int).contains('.'),
        r.2 == some_digit(s@.subrange(i as int, r.0 as int)),
{
    let n: usize = s.len();
    let mut k: usize = i + 1;
    let mut dot = false;
    let mut digit = is_digit_char(s[i]);
    while k < n && (is_digit_char(s[k]) || (s[k] == '.' && !dot))
        invariant
            n == s@.len(),
            i < k <= n,
            run_end(s@, i + 1, false) == run_end(s@, k as int, dot),
            dot == (exists|j: int| i <= j < k && #[trigger] s@[j] == '.'),
            digit == (exists|j: int| i <= j < k && text::is_digit(#[trigger] s@[j])),
        decreases n - k,
    {
        if s[k] == '.' {
            dot = true;
        } else {
            digit = true;
        }
        k = k + 1;
    }
    proof {
        let run = s@.subrange(i as int, k as int);
        if dot {
            let j = choose|j: int| i <= j < k && #[trigger] s@[j] == '.';
            assert(run[j - i] == '.');
        } else {
            assert forall|j: int| 0 <= j < run.len() implies #[trigger] run[j] != '.' by {
                assert(run[j] == s@[i + j]);
            }
        }
        if digit {
            let j = choose|j: int| i <= j < k && text::is_digit(#[trigger] s@[j]);
            assert(text::is_digit(run[j - i]));
        } else {
            assert forall|j: int| 0 <= j < run.len() implies !text::is_digit(#[trigger] run[j]) by {
                assert(run[j] == s@[i + j]);
            }
        }
    }
    (k, dot, digit)
}

/// What two numbers are.
pub open spec fn number_pair_model(r: Option<(Number, Number)>) -> Option<
    (NumberModel, NumberModel),
> {
    match r {
        Some((a, b)) => Some((a@, b@)),
        None => None,
    }
}

/// Finds a position in decimal degrees, such as `44.43N, 26.10E`: the first two numbers,
/// at least one of them with a point.
pub fn parse_decimal(s: &[char]) -> (r: Option<(Number, Number)>)
    ensures
        number_pair_model(r) == decimal_pair(s@),
{
    let mut found: Vec<Number> = Vec::new();
    let mut point = false;
    let mut i: usize = 0;
    while i < s.len() && found.len() < 2
        invariant
            i <= s@.len(),
            found@.len() <= 2,
            numbers(s@, 0) == number_models(found@) + numbers(s@, i as int),
            point == exists|k: int|
                0 <= k < found@.len() && (#[trigger] number_models(found@)[k]).spelling.contains('.'),
        decreases s.len() - i,
    {
        let ghost before = number_models(found@);
        let c = s[i];
        if c == '-' || c == '+' || is_digit_char(c) {
            let (e, dot, digit) = read_run(s, i);
            if digit {
                let ghost had = point;
                point = point || dot;
                let j: usize = past_blanks(s, e);
                let compass = if j < s.len() {
                    compass_of(s[j])
                } else {
                    None
                };
                let next: usize = if compass.is_some() {
                    j + 1
                } else {
                    e
                };
                let spelling = slice_text(s, i, e);
                let ghost one = NumberModel { spelling: spelling@, compass };
                found.push(Number { spelling, compass });
                proof {
                    let after = number_models(found@);
                    assert(after =~= before.push(one));
                    if had {
                        let k = choose|k: int|
                            0 <= k < before.len() && (#[trigger] before[k]).spelling.contains('.');
                        assert(after[k].spelling.contains('.'));
                    }
                    if dot {
                        assert(after[before.len() as int].spelling.contains('.'));
                    }
                    assert forall|k: int|
                        0 <= k < after.len() && (#[trigger] after[k]).spelling.contains(
                            '.',
                        ) implies point by {
                        if k < before.len() {
                            assert(before[k].spelling.contains('.'));
                        }
                    }
                    assert(numbers(s@, i as int) == seq![one] + numbers(s@, next as int));
                    assert(before + (seq![one] + numbers(s@, next as int)) =~= before.push(one)
                        + numbers(s@, next as int));
                }
                i = next;
            } else {
                i = e;
            }
        } else {
            i = i + 1;
        }
    }
    proof {
        let n = numbers(s@, 0);
        let m = number_models(found@);
        assert(found@.len() < 2 ==> n =~= m);
        if found@.len() == 2 {
            assert(n[0] == m[0] && n[1] == m[1]);
        }
    }
    if !point || found.len() < 2 {
        return None;
    }
    let first = found.remove(0);
    let second = found.remove(0);
    Some((first, second))
}

/// The centre of a Maidenhead grid square: the latitude in units of 1/480 degree,
/// the longitude in units of 1/240 degree.
#[derive(Debug, Clone, Copy, PartialEq, Eq, Structural)]
pub struct GridCentre {
    pub lat: i32,
    pub lon: i32,
}

/// Number of a field letter, `A` to `R`.
pub open spec fn field_number(c: char) -> Option<int> {
    let l = text::lower(c);
    if 'a' <= l <= 'r' {
        Some(l as int - 'a' as int)
    } else {
        None
    }
}

/// Number of a subsquare letter, `a` to `x`.
pub open spec fn subsquare_number(c: char) -> Option<int> {
    let l = text::lower(c);
    if 'a' <= l <= 'x' {
        Some(l as int - 'a' as int)
    } else {
        None
    }
}

/// Whether a text is a grid locator: two field letters and two digits, then perhaps
/// two subsquare letters, and then perhaps two more digits.
pub open spec fn is_locator(s: Seq<char>) -> bool {
    &&& s.len() == 4 || s.len() == 6 || s.len() == 8
    &&& field_number(s[0]) is Some && field_number(s[1]) is Some
    &&& text::is_digit(s[2]) && text::is_digit(s[3])
    &&& s.len() >= 6 ==> subsquare_number(s[4]) is Some && subsquare_number(s[5]) is Some
    &&& s.len() == 8 ==> text::is_digit(s[6]) && text::is_digit(s[7])
}

/// The south-west corner of a grid square along one axis, in units of which a square
/// is 480 wide, and half the width of the cell. `k` is 0 for longitude and 1 for
/// latitude.
pub open spec fn grid_line(s: Seq<char>, k: int) -> int {
    4800 * field_number(s[k])->0 + 480 * text::digit_value(s[2 + k]) + (if s.len() >= 6 {
        20 * subsquare_number(s[4 + k])->0
    } else {
        0
    }) + (if s.len() == 8 {
        2 * text::digit_value(s[6 + k])
    } else {
        0
    }) + (if s.len() == 4 {
        240int
    } else if s.len() == 6 {
        10
    } else {
        1
    })
}

/// The centre of the square that a locator names. A field is 20 degrees of longitude
/// by 10 of latitude, a square a tenth of that, a subsquare a 24th of a square and an
/// extended square a tenth of a subsquare.
pub open spec fn grid_centre(s: Seq<char>) -> Option<(int, int)> {
    let t = text::trim(s);
    if is_locator(t) {
        Some((grid_line(t, 1) - 43200, grid_line(t, 0) - 43200))
    } else {
        None
    }
}

/// What parts the words in which a locator is looked for.
pub open spec fn is_separator(c: char) -> bool {
    text::is_space(c) || c == ',' || c == ';'
}

/// The first separator from `i` on, or the end.
pub open spec fn word_end(s: Seq<char>, i: int) -> int
    decreases s.len() - i,
{
    if i < s.len() && !is_separator(s[i]) {
        word_end(s, i + 1)
    } else {
        i
    }
}

/// The first locator among the words from `i` on.
pub open spec fn first_locator(s: Seq<char>, i: int) -> Option<(int, int)>
    decreases s.len() - i,
{
    if i < 0 || i > s.len() {
        None
    } else {
        let e = word_end(s, i);
        proof {
            word_goes_forward(s, i);
        }
        match grid_centre(s.subrange(i, e)) {
            Some(g) => Some(g),
            None => if e < s.len() {
                first_locator(s, e + 1)
            } else {
                None
            },
        }
    }
}

/// A word ends where it starts or later.
pub proof fn word_goes_forward(s: Seq<char>, i: int)
    requires
        i <= s.len(),
    ensures
        i <= word_end(s, i) <= s.len(),
    decreases s.len() - i,
{
    if i < s.len() {
        word_goes_forward(s, i + 1);
    }
}

/// What a grid centre is as a pair of numbers.
pub open spec fn grid_pair(g: Option<GridCentre>) -> Option<(int, int)> {
    match g {
        Some(g) => Some((g.lat as int, g.lon as int)),
        None => None,
    }
}

fn field_letter(c: char) -> (r: Option<i32>)
    ensures
        (match r {
            Some(v) => Some(v as int),
            None => None,
        }) == field_number(c),
        r matches Some(v) ==> 0 <= v < 18,
{
    let l = text::lower_char(c);
    if 'a' <= l && l <= 'r' {
        Some((l as u32 - 'a' as u32) as i32)
    } else {
        None
    }
}

fn subsquare_letter(c: char) -> (r: Option<i32>)
    ensures
        (match r {
            Some(v) => Some(v as int),
            None => None,
        }) == subsquare_number(c),
        r matches Some(v) ==> 0 <= v < 24,
{
    let l = text::lower_char(c);
    if 'a' <= l && l <= 'x' {
        Some((l as u32 - 'a' as u32) as i32)
    } else {
        None
    }
}

fn digit_number(c: char) -> (r: Option<i32>)
    ensures
        r is Some == text::is_digit(c),
        r matches Some(v) ==> v == text::digit_value(c) && 0 <= v < 10,
{
    if '0' <= c && c <= '9' {
        Some((c as u32 - '0' as u32) as i32)
    } else {
        None
    }
}

/// One axis of a locator.
fn grid_axis(s: &[char], k: usize) -> (r: Option<i32>)
    requires
        s@.len() == 4 || s@.len() == 6 || s@.len() == 8,
        k <= 1,
    ensures
        r is Some <==> field_number(s@[k as int]) is Some && text::is_digit(s@[2 + k]) && (s@.len()
            >= 6 ==> subsquare_number(s@[4 + k]) is Some) && (s@.len() == 8 ==> text::is_digit(
            s@[6 + k],
        )),
        r matches Some(v) ==> v == grid_line(s@, k as int) && 0 <= v < 86400,
{
    let n: usize = s.len();
    let Some(field) = field_letter(s[k]) else {
        return None;
    };
    let Some(square) = digit_number(s[2 + k]) else {
        return None;
    };
    let mut line: i32 = 4800 * field + 480 * square;
    if n == 4 {
        return Some(line + 240);
    }
    let Some(sub) = subsquare_letter(s[4 + k]) else {
        return None;
    };
    line = line + 20 * sub;
    if n == 6 {
        return Some(line + 10);
    }
    let Some(extended) = digit_number(s[6 + k]) else {
        return None;
    };
    Some(line + 2 * extended + 1)
}

/// Reads a Maidenhead grid locator, such as `KN34bk`.
pub fn maidenhead_token(tok: &[char]) -> (r: Option<GridCentre>)
    ensures
        grid_pair(r) == grid_centre(tok@),
        r matches Some(g) ==> -43200 <= g.lat < 43200 && -43200 <= g.lon < 43200,
{
    let s = trim_chars(tok);
    let n: usize = s.len();
    if n != 4 && n != 6 && n != 8 {
        return None;
    }
    let Some(lon) = grid_axis(s, 0) else {
        return None;
    };
    let Some(lat) = grid_axis(s, 1) else {
        return None;
    };
    Some(GridCentre { lat: lat - 43200, lon: lon - 43200 })
}

/// Finds a Maidenhead grid locator among the words of a text.
pub fn parse_maidenhead(s: &[char]) -> (r: Option<GridCentre>)
    ensures
        grid_pair(r) == first_locator(s@, 0),
        r matches Some(g) ==> -43200 <= g.lat < 43200 && -43200 <= g.lon < 43200,
{
    let n: usize = s.len();
    let mut start: usize = 0;
    loop
        invariant
            n == s@.len(),
            start <= n,
            first_locator(s@, 0) == first_locator(s@, start as int),
        decreases n + 1 - start,
    {
        let mut e: usize = start;
        while e < n && !(is_space_char(s[e]) || s[e] == ',' || s[e] == ';')
            invariant
                n == s@.len(),
                start <= e <= n,
                word_end(s@, start as int) == word_end(s@, e as int),
            decreases n - e,
        {
            e = e + 1;
        }
        if let Some(g) = maidenhead_token(vstd::slice::slice_subrange(s, start, e)) {
            return Some(g);
        }
        if e >= n {
            return None;
        }
        start = e + 1;
    }
}

/// A reading of a text as a position.
#[derive(Debug, Clone)]
pub enum Candidate {
    /// Latitude and longitude in degrees and minutes.
    Aprs(DegMin, DegMin),
    /// Latitude and longitude in decimal degrees.
    Decimal(Number, Number),
    /// The centre of a grid square.
    Grid(GridCentre),
}

#[verifier::ext_equal]
pub enum CandidateModel {
    Aprs(DegMinModel, DegMinModel),
    Decimal(NumberModel, NumberModel),
    Grid(int, int),
}

impl View for Candidate {
    type V = CandidateModel;

    open spec fn view(&self) -> CandidateModel {
        match self {
            Candidate::Aprs(a, b) => CandidateModel::Aprs(a@, b@),
            Candidate::Decimal(a, b) => CandidateModel::Decimal(a@, b@),
            Candidate::Grid(g) => CandidateModel::Grid(g.lat as int, g.lon as int),
        }
    }
}

pub open spec fn candidate_models(v: Seq<Candidate>) -> Seq<CandidateModel> {
    Seq::new(v.len(), |i: int| v[i]@)
}

/// The readings of a text as a position: degrees and minutes, decimal degrees and a
/// grid locator, as far as the text has them, in this order.
pub open spec fn readings(s: Seq<char>) -> Seq<CandidateModel> {
    let t = text::trim(s);
    (match aprs_from(t, 0) {
        Some((a, b)) => seq![CandidateModel::Aprs(a, b)],
        None => seq![],
    }) + (match decimal_pair(t) {
        Some((a, b)) => seq![CandidateModel::Decimal(a, b)],
        None => seq![],
    }) + (match first_locator(t, 0) {
        Some((lat, lon)) => seq![CandidateModel::Grid(lat, lon)],
        None => seq![],
    })
}

/// Reads a text as a position. The first reading that is a place on earth counts.
pub fn parse_position(s: &str) -> (r: Vec<Candidate>)
    ensures
        candidate_models(r@) == readings(s@),
{
    let all = chars_of(s);
    let t = trim_chars(&all);
    let mut out: Vec<Candidate> = Vec::new();
    if let Some((a, b)) = parse_aprs(t) {
        out.push(Candidate::Aprs(a, b));
    }
    if let Some((a, b)) = parse_decimal(t) {
        out.push(Candidate::Decimal(a, b));
    }
    if let Some(g) = parse_maidenhead(t) {
        out.push(Candidate::Grid(g));
    }
    assert(candidate_models(out@) =~= readings(s@));
    out
}

/// The position in the first short location report that starts in a message at `i` or
/// later.
pub open spec fn short_in(b: Seq<u8>, i: int) -> Option<(int, int)>
    decreases b.len() - i,
{
    if i < 0 || i >= b.len() {
        None
    } else {
        match short_report(b.subrange(i, b.len() as int)) {
            Some(p) => Some(p),
            None => short_in(b, i + 1),
        }
    }
}

/// The position in the first long location report that starts in a message at `i` or
/// later.
pub open spec fn long_in(b: Seq<u8>, i: int) -> Option<(int, int)>
    decreases b.len() - i,
{
    if i < 0 || i >= b.len() {
        None
    } else {
        match long_report(b.subrange(i, b.len() as int)) {
            Some(p) => Some(p),
            None => long_in(b, i + 1),
        }
    }
}

/// The position that a message reports: that of its first short location report, or
/// else of its first long one.
pub open spec fn report_in(b: Seq<u8>) -> Option<(int, int)> {
    match short_in(b, 0) {
        Some(p) => Some(p),
        None => long_in(b, 0),
    }
}

/// Looks for a location report in a message.
pub fn find_report(b: &[u8]) -> (r: Option<LipFix>)
    ensures
        fix_pair(r) == report_in(b@),
        r matches Some(f) ==> report_in(b@) == Some((f.lat as int, f.lon as int)),
        r matches Some(f) ==> on_earth(f),
{
    let n: usize = b.len();
    let mut i: usize = 0;
    while i < n
        invariant
            n == b@.len(),
            i <= n,
            short_in(b@, 0) == short_in(b@, i as int),
        decreases n - i,
    {
        let f = decode_lip(vstd::slice::slice_subrange(b, i, n));
        if f.is_some() {
            return f;
        }
        i = i + 1;
    }
    i = 0;
    while i < n
        invariant
            n == b@.len(),
            i <= n,
            short_in(b@, 0) is None,
            long_in(b@, 0) == long_in(b@, i as int),
        decreases n - i,
    {
        let f = decode_lip_long(vstd::slice::slice_subrange(b, i, n));
        if f.is_some() {
            return f;
        }
        i = i + 1;
    }
    None
}

/// The printable ASCII characters of a message, in order.
pub open spec fn ascii_in(b: Seq<u8>) -> Seq<char>
    decreases b.len(),
{
    if b.len() == 0 {
        seq![]
    } else if 0x20 <= b.last() <= 0x7e {
        ascii_in(b.drop_last()).push(b.last() as char)
    } else {
        ascii_in(b.drop_last())
    }
}

/// Picks the printable ASCII characters of a message.
pub fn ascii_text(b: &[u8]) -> (r: String)
    ensures
        r@ == ascii_in(b@),
{
    let mut out = String::new();
    let mut i: usize = 0;
    while i < b.len()
        invariant
            i <= b@.len(),
            out@ == ascii_in(b@.take(i as int)),
        decreases b@.len() - i,
    {
        let ghost t = b@.take(i + 1);
        assert(t.drop_last() =~= b@.take(i as int));
        if 0x20 <= b[i] && b[i] <= 0x7e {
            out.push(b[i] as char);
        }
        i = i + 1;
    }
    assert(b@.take(i as int) =~= b@);
    out
}

} // verus!

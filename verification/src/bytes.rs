//! Fixed-width integers on the wire.
use vstd::prelude::*;

verus! {

/// Value of the little-endian 16-bit field that starts at `o`.
pub open spec fn le16(s: Seq<u8>, o: int) -> int {
    s[o] + 256 * s[o + 1]
}

/// Value of the little-endian 32-bit field that starts at `o`.
pub open spec fn le32(s: Seq<u8>, o: int) -> int {
    s[o] + 256 * s[o + 1] + 65536 * s[o + 2] + 16777216 * s[o + 3]
}

/// Value of the little-endian 64-bit field that starts at `o`.
pub open spec fn le64(s: Seq<u8>, o: int) -> int {
    le32(s, o) + 4294967296 * le32(s, o + 4)
}

/// The two bytes of `v`, least significant first.
pub open spec fn le16_bytes(v: u16) -> Seq<u8> {
    seq![(v % 256) as u8, (v / 256) as u8]
}

/// The four bytes of `v`, least significant first.
pub open spec fn le32_bytes(v: u32) -> Seq<u8> {
    seq![(v % 256) as u8, (v / 256 % 256) as u8, (v / 65536 % 256) as u8, (v / 16777216) as u8]
}

/// The eight bytes of `v`, least significant first.
pub open spec fn le64_bytes(v: u64) -> Seq<u8> {
    le32_bytes((v % 4294967296) as u32) + le32_bytes((v / 4294967296) as u32)
}

/// Number that the bytes spell, most significant first.
pub open spec fn be_value(s: Seq<u8>) -> nat
    decreases s.len(),
{
    if s.len() == 0 {
        0
    } else {
        256 * be_value(s.drop_last()) + s.last() as nat
    }
}

/// The `n` low bytes of `v`, most significant first.
pub open spec fn be_bytes(v: nat, n: nat) -> Seq<u8>
    decreases n,
{
    if n == 0 {
        Seq::empty()
    } else {
        be_bytes(v / 256, (n - 1) as nat).push((v % 256) as u8)
    }
}

/// `256^n`.
pub open spec fn pow256(n: nat) -> nat
    decreases n,
{
    if n == 0 {
        1
    } else {
        256 * pow256((n - 1) as nat)
    }
}

/// Writing a 16-bit field and reading it back gives the value.
pub proof fn le16_round_trip(v: u16)
    ensures
        le16_bytes(v).len() == 2,
        le16(le16_bytes(v), 0) == v,
{
}

/// Writing a 32-bit field and reading it back gives the value.
pub proof fn le32_round_trip(v: u32)
    ensures
        le32_bytes(v).len() == 4,
        le32(le32_bytes(v), 0) == v,
{
}

/// Writing a 64-bit field and reading it back gives the value.
pub proof fn le64_round_trip(v: u64)
    ensures
        le64_bytes(v).len() == 8,
        le64(le64_bytes(v), 0) == v,
{
    let lo = (v % 4294967296) as u32;
    let hi = (v / 4294967296) as u32;
    le32_round_trip(lo);
    le32_round_trip(hi);
    assert(le32(le64_bytes(v), 0) == le32(le32_bytes(lo), 0));
    assert(le32(le64_bytes(v), 4) == le32(le32_bytes(hi), 0));
}

/// A 32-bit field is determined by its four bytes and determines them.
pub proof fn le32_of_bytes(s: Seq<u8>, o: int)
    requires
        0 <= o,
        o + 4 <= s.len(),
    ensures
        0 <= le32(s, o) <= u32::MAX,
        le32_bytes(le32(s, o) as u32) == s.subrange(o, o + 4),
{
    let v = le32(s, o) as u32;
    assert(le32_bytes(v)[0] == s[o]);
    assert(v / 256 == s[o + 1] + 256 * s[o + 2] + 65536 * s[o + 3]);
    assert(v / 65536 == s[o + 2] + 256 * s[o + 3]);
    assert(le32_bytes(v) =~= s.subrange(o, o + 4));
}

/// The big-endian spelling of `v` in `n` bytes has the value `v` when it fits.
pub proof fn be_round_trip(v: nat, n: nat)
    requires
        v < pow256(n),
    ensures
        be_bytes(v, n).len() == n,
        be_value(be_bytes(v, n)) == v,
    decreases n,
{
    if n > 0 {
        be_round_trip(v / 256, (n - 1) as nat);
        assert(be_bytes(v, n).drop_last() =~= be_bytes(v / 256, (n - 1) as nat));
    }
}

/// Bytes are recovered from their big-endian value and their number.
pub proof fn be_of_bytes(s: Seq<u8>)
    ensures
        be_value(s) < pow256(s.len()),
        be_bytes(be_value(s), s.len()) == s,
    decreases s.len(),
{
    if s.len() > 0 {
        be_of_bytes(s.drop_last());
        assert(s =~= s.drop_last().push(s.last()));
    }
}

/// `256^16` is one more than the largest `u128`.
pub proof fn pow256_16()
    ensures
        pow256(16) == u128::MAX + 1,
{
    reveal_with_fuel(pow256, 17);
}

/// Reads a little-endian 16-bit field.
pub fn u16le(data: &[u8], o: usize) -> (r: u16)
    requires
        o + 2 <= data@.len(),
    ensures
        r == le16(data@, o as int),
{
    data[o] as u16 + 256 * (data[o + 1] as u16)
}

/// Reads a little-endian 32-bit field.
pub fn u32le(data: &[u8], o: usize) -> (r: u32)
    requires
        o + 4 <= data@.len(),
    ensures
        r == le32(data@, o as int),
{
    data[o] as u32 + 256 * (data[o + 1] as u32) + 65536 * (data[o + 2] as u32) + 16777216 * (
    data[o + 3] as u32)
}

/// Reads a little-endian 64-bit field.
pub fn u64le(data: &[u8], o: usize) -> (r: u64)
    requires
        o + 8 <= data@.len(),
    ensures
        r == le64(data@, o as int),
{
    let n: usize = data.len();
    assert(o + 4 <= n);
    u32le(data, o) as u64 + 4294967296 * (u32le(data, o + 4) as u64)
}

/// Appends a little-endian 16-bit field.
pub fn put_u16le(out: &mut Vec<u8>, v: u16)
    ensures
        final(out)@ == old(out)@ + le16_bytes(v),
{
    out.push((v % 256) as u8);
    out.push((v / 256) as u8);
}

/// Appends a little-endian 32-bit field.
pub fn put_u32le(out: &mut Vec<u8>, v: u32)
    ensures
        final(out)@ == old(out)@ + le32_bytes(v),
{
    out.push((v % 256) as u8);
    out.push((v / 256 % 256) as u8);
    out.push((v / 65536 % 256) as u8);
    out.push((v / 16777216) as u8);
}

/// Appends a little-endian 64-bit field.
pub fn put_u64le(out: &mut Vec<u8>, v: u64)
    ensures
        final(out)@ == old(out)@ + le64_bytes(v),
{
    put_u32le(out, (v % 4294967296) as u32);
    put_u32le(out, (v / 4294967296) as u32);
}

/// Appends `n` zero bytes.
pub fn put_zeros(out: &mut Vec<u8>, n: usize)
    ensures
        final(out)@ == old(out)@ + Seq::new(n as nat, |i: int| 0u8),
{
    let mut i: usize = 0;
    while i < n
        invariant
            i <= n,
            out@ == old(out)@ + Seq::new(i as nat, |k: int| 0u8),
        decreases n - i,
    {
        out.push(0);
        i += 1;
    }
}

/// Appends a run of bytes.
pub fn put_bytes(out: &mut Vec<u8>, more: &[u8])
    ensures
        final(out)@ == old(out)@ + more@,
{
    out.extend_from_slice(more);
    assert(out@ =~= old(out)@ + more@);
}

/// Copies the bytes from `i` up to `j`.
pub fn copy_range(data: &[u8], i: usize, j: usize) -> (r: Vec<u8>)
    requires
        i <= j <= data@.len(),
    ensures
        r@ == data@.subrange(i as int, j as int),
{
    let mut out: Vec<u8> = Vec::new();
    put_bytes(&mut out, vstd::slice::slice_subrange(data, i, j));
    assert(out@ =~= data@.subrange(i as int, j as int));
    out
}

/// Position of the first byte equal to `b`, or the length when there is none.
pub open spec fn index_or_len(s: Seq<u8>, b: u8) -> int
    decreases s.len(),
{
    if s.len() == 0 {
        0
    } else if s[0] == b {
        0
    } else {
        1 + index_or_len(s.drop_first(), b)
    }
}

/// Where `index_or_len` points: nothing equal before it, a match at it.
pub proof fn index_or_len_is_first(s: Seq<u8>, b: u8)
    ensures
        0 <= index_or_len(s, b) <= s.len(),
        forall|i: int| 0 <= i < index_or_len(s, b) ==> s[i] != b,
        index_or_len(s, b) < s.len() ==> s[index_or_len(s, b)] == b,
    decreases s.len(),
{
    if s.len() > 0 && s[0] != b {
        index_or_len_is_first(s.drop_first(), b);
        assert forall|i: int| 0 <= i < index_or_len(s, b) implies s[i] != b by {
            if i > 0 {
                assert(s[i] == s.drop_first()[i - 1]);
            }
        }
    }
}

/// The first match is the only position with the defining properties.
pub proof fn index_or_len_unique(s: Seq<u8>, b: u8, k: int)
    requires
        0 <= k <= s.len(),
        forall|i: int| 0 <= i < k ==> s[i] != b,
        k < s.len() ==> s[k] == b,
    ensures
        k == index_or_len(s, b),
{
    index_or_len_is_first(s, b);
}

/// Finds the first byte equal to `b`, or the length of the data.
pub fn find_or_len(data: &[u8], b: u8) -> (r: usize)
    ensures
        r == index_or_len(data@, b),
        r <= data@.len(),
{
    let mut i: usize = 0;
    while i < data.len() && data[i] != b
        invariant
            i <= data@.len(),
            forall|k: int| 0 <= k < i ==> data@[k] != b,
        decreases data@.len() - i,
    {
        i += 1;
    }
    proof {
        index_or_len_unique(data@, b, i as int);
    }
    i
}

} // verus!

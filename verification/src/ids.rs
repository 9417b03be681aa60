//! Call and client identifiers: UUIDs, held as their 128-bit value.
use crate::bytes;
use vstd::prelude::*;

verus! {

/// A UUID as the number that its sixteen bytes spell, most significant first.
pub type Id = u128;

/// The sixteen bytes of an identifier, as they stand on the wire.
pub open spec fn id_bytes(id: Id) -> Seq<u8> {
    bytes::be_bytes(id as nat, 16)
}

/// Lower-case hexadecimal digit.
pub open spec fn hex_digit(n: int) -> char {
    if n < 10 {
        ('0' as u32 + n) as char
    } else {
        ('a' as u32 + (n - 10)) as char
    }
}

/// Two lower-case hexadecimal digits for each byte.
pub open spec fn hex_text(s: Seq<u8>) -> Seq<char>
    decreases s.len(),
{
    if s.len() == 0 {
        Seq::empty()
    } else {
        hex_text(s.drop_last()).push(hex_digit(s.last() as int / 16)).push(
            hex_digit(s.last() as int % 16),
        )
    }
}

/// `uuid::Uuid::from_bytes` followed by `as_u128`: the identifier is the
/// big-endian value of the sixteen bytes.
#[verifier::external_body]
fn uuid_from_bytes(b: [u8; 16]) -> (r: u128)
    ensures
        r as nat == bytes::be_value(b@),
{
    uuid::Uuid::from_bytes(b).as_u128()
}

/// `uuid::Uuid::from_u128` followed by `into_bytes`: the sixteen bytes spell
/// the value, most significant first.
#[verifier::external_body]
fn uuid_into_bytes(id: u128) -> (r: [u8; 16])
    ensures
        r@ == bytes::be_bytes(id as nat, 16),
{
    uuid::Uuid::from_u128(id).into_bytes()
}

/// `uuid::Uuid::simple` rendered as text: thirty-two lower-case hexadecimal
/// digits, two for each byte, without hyphens.
#[verifier::external_body]
fn uuid_simple(id: u128) -> (r: String)
    ensures
        r@ == hex_text(bytes::be_bytes(id as nat, 16)),
{
    uuid::Uuid::from_u128(id).simple().to_string()
}

/// Reads the identifier that starts at `o`.
pub fn read_id(data: &[u8], o: usize) -> (r: Id)
    requires
        o + 16 <= data@.len(),
    ensures
        r as nat == bytes::be_value(data@.subrange(o as int, o + 16)),
        id_bytes(r) == data@.subrange(o as int, o + 16),
{
    let b: [u8; 16] = [
        data[o],
        data[o + 1],
        data[o + 2],
        data[o + 3],
        data[o + 4],
        data[o + 5],
        data[o + 6],
        data[o + 7],
        data[o + 8],
        data[o + 9],
        data[o + 10],
        data[o + 11],
        data[o + 12],
        data[o + 13],
        data[o + 14],
        data[o + 15],
    ];
    assert(b@ =~= data@.subrange(o as int, o + 16));
    proof {
        bytes::be_of_bytes(b@);
    }
    uuid_from_bytes(b)
}

/// Appends the sixteen bytes of an identifier.
pub fn put_id(out: &mut Vec<u8>, id: Id)
    ensures
        final(out)@ == old(out)@ + id_bytes(id),
{
    let b = uuid_into_bytes(id);
    crate::bytes::put_bytes(out, &b);
}

/// Identifier in the hyphen-free hexadecimal form used for tokens and tags.
pub fn id_text(id: Id) -> (r: String)
    ensures
        r@ == hex_text(id_bytes(id)),
{
    uuid_simple(id)
}

/// An identifier is spelled in sixteen bytes and read back from them.
pub proof fn id_round_trip(id: Id)
    ensures
        id_bytes(id).len() == 16,
        bytes::be_value(id_bytes(id)) == id as nat,
{
    bytes::pow256_16();
    crate::bytes::be_round_trip(id as nat, 16);
}

/// Two identifiers with the same bytes are the same.
pub proof fn id_bytes_injective(a: Id, b: Id)
    requires
        id_bytes(a) == id_bytes(b),
    ensures
        a == b,
{
    id_round_trip(a);
    id_round_trip(b);
}

/// A byte takes two digits.
pub proof fn hex_text_length(s: Seq<u8>)
    ensures
        hex_text(s).len() == 2 * s.len(),
    decreases s.len(),
{
    if s.len() > 0 {
        hex_text_length(s.drop_last());
    }
}

/// A byte is spelled as two hexadecimal digits, the higher half first.
pub proof fn bytes_are_spelled_in_hex(s: Seq<u8>, i: int)
    requires
        0 <= i < s.len(),
    ensures
        hex_text(s).len() == 2 * s.len(),
        hex_text(s)[2 * i] == (if s[i] / 16 < 10 {
            (48 + s[i] / 16) as char
        } else {
            (87 + s[i] / 16) as char
        }),
        hex_text(s)[2 * i + 1] == (if s[i] % 16 < 10 {
            (48 + s[i] % 16) as char
        } else {
            (87 + s[i] % 16) as char
        }),
    decreases s.len(),
{
    hex_text_length(s);
    hex_text_length(s.drop_last());
    if i < s.len() - 1 {
        bytes_are_spelled_in_hex(s.drop_last(), i);
        assert(s.drop_last()[i] == s[i]);
    }
}

} // verus!

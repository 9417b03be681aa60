use brew_server::digest::{hex_string, md5_hex};
use brew_server::ids::{id_text, put_id, read_id};
use brew_server::scan::{split_char, split_lines, split_words};
use brew_server::table::{member_list, KeySet, Table};
use brew_server::text::{
    chars_of, decimal_text, lossy_text, parse_unsigned, same_text_no_case, string_of, text_bytes,
    trim_chars, utf8_text,
};
use uuid::Uuid;

#[test]
fn identifiers_round_trip() {
    let id = Uuid::new_v4();
    let mut out = vec![0xaa];
    put_id(&mut out, id.as_u128());
    assert_eq!(&out[1..], id.as_bytes());
    assert_eq!(read_id(&out, 1), id.as_u128());
    assert_eq!(id_text(id.as_u128()), id.simple().to_string());
}

#[test]
fn tables_map_keys_to_values() {
    let mut t: Table<u32, String> = Table::new();
    assert!(t.insert(1, "a".into()).is_none());
    assert_eq!(t.insert(1, "b".into()), Some("a".into()));
    t.insert(2, "c".into());
    assert_eq!(t.len(), 2);
    assert_eq!(t.get(&1).unwrap(), "b");
    assert!(t.get(&3).is_none());
    assert_eq!(t.keys().len(), 2);
    assert_eq!(t.remove(&1), Some("b".into()));
    assert!(!t.contains_key(&1));
    assert_eq!(t.pop(), Some((2, "c".into())));
    assert!(t.is_empty());
}

#[test]
fn sets_hold_each_key_once() {
    let mut s: KeySet<u32> = KeySet::new();
    assert!(s.insert(3));
    assert!(!s.insert(3));
    let mut o: KeySet<u32> = KeySet::new();
    o.insert(4);
    o.insert(3);
    s.extend(&o);
    assert_eq!(s.len(), 2);
    let mut list = member_list(&s.duplicate());
    list.sort();
    assert_eq!(list, vec![3, 4]);
    assert!(s.remove(&3));
    assert!(!s.contains(&3));
}

#[test]
fn hashes_match_their_test_vectors() {
    assert_eq!(md5_hex(""), "d41d8cd98f00b204e9800998ecf8427e");
    assert_eq!(md5_hex("abc"), "900150983cd24fb0d6963f7d28e17f72");
    assert_eq!(hex_string(&[0x0a, 0xff]), "0aff");
}

#[test]
fn texts_are_decoded() {
    assert_eq!(utf8_text("h\u{e9}".as_bytes()).as_deref(), Some("h\u{e9}"));
    assert_eq!(utf8_text(&[0xff]), None);
    assert_eq!(lossy_text(&[b'a', 0xff, b'b']), "a\u{fffd}b");
    assert_eq!(text_bytes("h\u{e9}"), "h\u{e9}".as_bytes().to_vec());
    assert_eq!(string_of(&chars_of("abc")), "abc");
}

#[test]
fn texts_are_taken_apart() {
    let c = chars_of(" a  b ");
    assert_eq!(string_of(trim_chars(&c)), "a  b");
    let words: Vec<String> = split_words(&c).iter().map(|w| string_of(w)).collect();
    assert_eq!(words, vec!["a", "b"]);
    let pieces: Vec<String> =
        split_char(&chars_of("a,,b"), ',').iter().map(|w| string_of(w)).collect();
    assert_eq!(pieces, vec!["a", "", "b"]);
    let lines: Vec<String> =
        split_lines(&chars_of("a\r\nb\nc")).iter().map(|w| string_of(w)).collect();
    assert_eq!(lines, vec!["a", "b", "c"]);
    assert!(same_text_no_case("WebSocket", "websocket"));
}

#[test]
fn numbers_are_read_and_spelled() {
    assert_eq!(decimal_text(0), "0");
    assert_eq!(decimal_text(u64::MAX), u64::MAX.to_string());
    assert_eq!(parse_unsigned(&chars_of("255"), 255), Some(255));
    assert_eq!(parse_unsigned(&chars_of("256"), 255), None);
    assert_eq!(parse_unsigned(&chars_of(""), 255), None);
    assert_eq!(parse_unsigned(&chars_of("1x"), 255), None);
}

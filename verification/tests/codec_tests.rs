use nadeloader::codec::{decode_base64, decode_msgpack, map_get, MsgValue};
use nadeloader::profile::avatar_data_url;
use nadeloader::releases::{is_nightly, is_skeet};
use nadeloader::text::{chars_of, contains, lex_le_chars, signed_decimal_chars, split_pieces, str_eq, trim_str};

/// The base64 text that an avatar's data URL carries for bytes that are not a known image.
fn base64_encode(bytes: &[u8]) -> String {
    avatar_data_url(bytes).strip_prefix("data:image/png;base64,").unwrap().to_string()
}

#[test]
fn base64_encodes_with_padding() {
    assert_eq!(base64_encode(b""), "");
    assert_eq!(base64_encode(b"f"), "Zg==");
    assert_eq!(base64_encode(b"fo"), "Zm8=");
    assert_eq!(base64_encode(b"foo"), "Zm9v");
    assert_eq!(base64_encode(b"foobar"), "Zm9vYmFy");
    assert_eq!(base64_encode(&[0xfb, 0xff]), "+/8=");
}

#[test]
fn base64_round_trips() {
    for data in [&b""[..], b"a", b"ab", b"abc", b"\x00\xff\x10\x80hello"] {
        let text = base64_encode(data);
        assert_eq!(decode_base64(&text).unwrap(), data.to_vec());
    }
}

#[test]
fn base64_refuses_non_canonical_text() {
    assert!(decode_base64("Zg").is_err());
    assert!(decode_base64("Zh==").is_err());
    assert!(decode_base64("Zm9v Zg==").is_err());
    assert!(decode_base64("Z===").is_err());
}

#[test]
fn msgpack_reads_first_value() {
    let v = decode_msgpack(&[0x92, 0x01, 0xa1, b'x', 0xc0]).unwrap();
    match v {
        MsgValue::Array(items) => {
            assert_eq!(items.len(), 2);
            assert!(matches!(items[0], MsgValue::Integer(Some(1), Some(1))));
            assert!(matches!(&items[1], MsgValue::Text(Some(s)) if s == "x"));
        }
        other => panic!("{other:?}"),
    }
    assert!(decode_msgpack(&[]).is_err());
    assert!(matches!(decode_msgpack(&[0xcb, 0x3f, 0xf0, 0, 0, 0, 0, 0, 0]).unwrap(), MsgValue::F64(b) if b == 1.0f64.to_bits()));
    assert!(matches!(decode_msgpack(&[0xcf, 0xff, 0xff, 0xff, 0xff, 0xff, 0xff, 0xff, 0xff]).unwrap(), MsgValue::Integer(None, Some(u64::MAX))));
    assert!(matches!(decode_msgpack(&[0xa1, 0xff]).unwrap(), MsgValue::Text(None)));
}

#[test]
fn map_get_finds_first_string_key() {
    let m = MsgValue::Dict(vec![
        (MsgValue::Integer(Some(1), Some(1)), MsgValue::Nil),
        (MsgValue::Text(Some("k".to_string())), MsgValue::Boolean(true)),
        (MsgValue::Text(Some("k".to_string())), MsgValue::Boolean(false)),
    ]);
    assert!(matches!(map_get(&m, "k"), Some(MsgValue::Boolean(true))));
    assert!(map_get(&m, "z").is_none());
    assert!(map_get(&MsgValue::Nil, "k").is_none());
}

#[test]
fn trim_matches_std() {
    for s in ["  a b \n", "\u{3000}x\u{85}", "", " \t ", "x"] {
        assert_eq!(trim_str(s), s.trim());
    }
}

#[test]
fn lowercase_and_contains() {
    assert!(is_skeet("SKEET-2") && is_skeet("SkEeT"));
    assert!(is_nightly("v1-NIGHTLY") && is_nightly("ALPHA") && !is_nightly("v1.0"));
    assert!(contains(&chars_of("a-Beta-1"), &chars_of("Beta")));
    assert!(!contains(&chars_of("ab"), &chars_of("abc")));
    assert!(contains(&chars_of("ab"), &chars_of("")));
}

#[test]
fn decimal_text() {
    let s: String = signed_decimal_chars(-2147483648).into_iter().collect();
    assert_eq!(s, "-2147483648");
    let z: String = signed_decimal_chars(0).into_iter().collect();
    assert_eq!(z, "0");
    let m: String = signed_decimal_chars(i64::MIN).into_iter().collect();
    assert_eq!(m, i64::MIN.to_string());
}

#[test]
fn lexicographic_order_matches_str_order() {
    for (a, b) in [("a", "b"), ("ab", "a"), ("1.10", "1.9"), ("", "x"), ("é", "z"), ("same", "same")] {
        assert_eq!(lex_le_chars(&chars_of(a), &chars_of(b)), a <= b, "{a} {b}");
    }
}

#[test]
fn pieces_split_at_line_feeds() {
    let p: Vec<String> = split_pieces(&chars_of("a\r\n\nb")).into_iter().map(|v| v.into_iter().collect()).collect();
    assert_eq!(p, vec!["a\r", "", "b"]);
    let q = split_pieces(&chars_of("x\n"));
    assert_eq!(q.len(), 1);
    assert!(split_pieces(&chars_of("")).is_empty());
    assert!(str_eq("abc", "abc") && !str_eq("abc", "abd"));
}

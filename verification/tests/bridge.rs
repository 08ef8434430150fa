use debug_bridge::bridge::bytes_reply;
use debug_bridge::bridge::is_null_handle;
use debug_bridge::bridge::map_reply;
use debug_bridge::bridge::null_text;
use debug_bridge::decode::decode_render;
use debug_bridge::foreign::render_bytes_value;
use debug_bridge::foreign::render_map_value;
use debug_bridge::map::render_entries;
use debug_bridge::render::render_bytes;
use debug_bridge::wire::payload_len;
use debug_bridge::wire::to_wire;

use bytes::Bytes;
use indexmap::IndexMap;

#[test]
fn bytes_hello_world_matches_reference() {
    let data: Vec<u8> = b"hello world".to_vec();
    let out = render_bytes(&data);
    assert_eq!(out, b"b\"hello world\"".to_vec());
    let reference = format!("{:?}", Bytes::from("hello world"));
    assert_eq!(out, reference.into_bytes());
}

#[test]
fn bytes_value_goes_through_the_real_buffer() {
    let b = Bytes::from_static(b"hi");
    assert_eq!(render_bytes_value(&b), b"b\"hi\"".to_vec());
}

#[test]
fn bytes_escapes_match_reference() {
    let data: Vec<u8> = vec![0x00, 0x0a, 0x0d, 0x09, b'\\', b'"', 0x1f, 0x7f, 0xff, b'A'];
    let out = render_bytes(&data);
    assert_eq!(out, b"b\"\\0\\n\\r\\t\\\\\\\"\\x1f\\x7f\\xffA\"".to_vec());
    let reference = format!("{:?}", Bytes::from(data));
    assert_eq!(out, reference.into_bytes());
}

#[test]
fn bytes_hello_world_decodes_back() {
    let data: Vec<u8> = b"hello world".to_vec();
    let out = render_bytes(&data);
    // the canonical form of plain printable text: strip `b"` and `"` to get
    // the original eleven bytes back
    assert_eq!(out.len(), data.len() + 3);
    assert_eq!(&out[2..out.len() - 1], &data[..]);
    assert_eq!(decode_render(&out), Some(data));
}

#[test]
fn escaped_renderings_decode_back() {
    let data: Vec<u8> = vec![0x00, 0x0a, 0x0d, 0x09, b'\\', b'"', 0x1f, 0x7f, 0xff, b'A'];
    assert_eq!(decode_render(&render_bytes(&data)), Some(data));
    assert_eq!(decode_render(&render_bytes(&Vec::new())), Some(Vec::new()));
}

#[test]
fn malformed_text_does_not_decode() {
    assert_eq!(decode_render(&b"".to_vec()), None);
    assert_eq!(decode_render(&b"hello".to_vec()), None);
    assert_eq!(decode_render(&b"b\"unterminated".to_vec()), None);
    assert_eq!(decode_render(&b"b\"stray\"quote\"".to_vec()), None);
    assert_eq!(decode_render(&b"b\"bad\\q\"".to_vec()), None);
    assert_eq!(decode_render(&b"b\"bad\\xg1\"".to_vec()), None);
    assert_eq!(decode_render(&b"b\"cut\\x4\"".to_vec()), None);
}

#[test]
fn map_three_entries_matches_reference() {
    let entries: Vec<(i32, Vec<u8>)> =
        vec![(1, b"one".to_vec()), (2, b"two".to_vec()), (3, b"three".to_vec())];
    let out = render_entries(&entries);
    assert_eq!(out, b"{1: \"one\", 2: \"two\", 3: \"three\"}".to_vec());
    let map = IndexMap::from([(1, "one"), (2, "two"), (3, "three")]);
    let reference = format!("{:?}", map);
    assert_eq!(out, reference.into_bytes());
    assert_eq!(render_map_value(&map), out);
}

#[test]
fn map_negative_key_and_escapes_match_reference() {
    let entries: Vec<(i32, Vec<u8>)> = vec![
        (-5, "a\"b\\c\n\r\t\u{1}\u{1f}\u{7f}é".as_bytes().to_vec()),
        (i32::MIN, b"".to_vec()),
        (i32::MAX, b"x".to_vec()),
    ];
    let out = render_entries(&entries);
    let map = IndexMap::from([
        (-5, "a\"b\\c\n\r\t\u{1}\u{1f}\u{7f}é"),
        (i32::MIN, ""),
        (i32::MAX, "x"),
    ]);
    let reference = format!("{:?}", map);
    assert_eq!(out, reference.into_bytes());
    assert_eq!(render_map_value(&map), out);
}

#[test]
fn empty_values_render_to_canonical_empty_forms() {
    let out = render_bytes(&Vec::new());
    assert_eq!(out, b"b\"\"".to_vec());
    assert_eq!(out, format!("{:?}", Bytes::new()).into_bytes());

    let out = render_entries(&Vec::new());
    assert_eq!(out, b"{}".to_vec());
    let map: IndexMap<i32, &str> = IndexMap::new();
    assert_eq!(out, format!("{:?}", map).into_bytes());
    assert_eq!(render_map_value(&map), out);
}

#[test]
fn zero_address_replies_with_the_placeholder_for_every_type() {
    assert_eq!(null_text(), b"<null>".to_vec());
    assert_eq!(bytes_reply(None), b"<null>\0".to_vec());
    assert_eq!(map_reply(None), b"<null>\0".to_vec());
}

#[test]
fn replies_are_terminated_and_recoverable() {
    let b = Bytes::from_static(b"hello world");
    let reply = bytes_reply(Some(&b));
    let n = payload_len(&reply);
    assert_eq!(n, reply.len() - 1);
    assert_eq!(reply[n], 0u8);
    assert_eq!(&reply[..n], &b"b\"hello world\""[..]);

    let map = IndexMap::from([(1, "one")]);
    let reply = map_reply(Some(&map));
    let n = payload_len(&reply);
    assert_eq!(n, reply.len() - 1);
    assert_eq!(&reply[..n], &b"{1: \"one\"}"[..]);
}

#[test]
fn wire_framing_appends_exactly_one_terminator() {
    let framed = to_wire(b"abc".to_vec());
    assert_eq!(framed, b"abc\0".to_vec());
    assert_eq!(payload_len(&framed), 3);
}

#[test]
fn zero_is_the_only_null_handle() {
    assert!(is_null_handle(0));
    assert!(!is_null_handle(1));
    assert!(!is_null_handle(usize::MAX));
}

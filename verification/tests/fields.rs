use phinet_core::errors::Error;
use phinet_core::fields::{read_record, Kind, Value};
use phinet_core::onion::{build, peel, Hop};
use std::ops::Range;

/// The record that the standard library's ranges are written as.
fn range(bytes: &[u8]) -> Result<Range<u64>, String> {
    let schema = [("start", Kind::Number), ("end", Kind::Number)];
    let v = read_record(bytes, "Range", &schema)?;
    match (&v[0], &v[1]) {
        (Value::Number(a), Value::Number(b)) => Ok(*a..*b),
        other => panic!("{:?}", other),
    }
}

fn agree(bytes: &[u8]) {
    let expected: Result<Range<u64>, String> =
        serde_json::from_slice(bytes).map_err(|e| e.to_string());
    assert_eq!(range(bytes), expected, "{:?}", String::from_utf8_lossy(bytes));
}

#[test]
fn records_are_read_as_by_serde_json() {
    agree(b"{\"start\":1,\"end\":2}");
    agree(b" {\t\"end\" : 2 ,\r\n\"start\"\n:\n18446744073709551615 } \n");
    agree(b"{\"st\\u0061rt\":1,\"end\":2}");
    agree(b"[1,2]");
    agree(b" [ 1 , 2 ] ");
}

#[test]
fn what_is_wrong_is_said_as_by_serde_json() {
    for text in [
        "", " ", "\n\n ", "5", "-5", "1.5", "\"x\"", "\"a map\"", "nul", "null", "true", "x",
        "\"open", "{", "{ ", "{}", "{1", "{]", "{\"start\"", "{\"start\" ", "{\"start\" 1}",
        "{\"start\":", "{\"start\":}", "{\"start\":\"a\"}", "{\"start\":\n\"a\"}",
        "{\"start\":1.5}", "{\"start\":-1}", "{\"start\":null}", "{\"start\":[1]}", "{\"start\":1",
        "{\"start\":1x", "{\"start\":1 \"end\":2}", "{\"start\":1,}", "{\"start\":1, }",
        "{\"start\":1,,}", "{\"start\":1,5}", "{\"start\":1,", "{\"start\":1}", "{\"end\":1}",
        "{\"start\":1,\"start\":2}", "{\"start\":1,\n\"start\"  :2}", "{\"start\":1,\"start\"}",
        "{\"start\":1,\"start\"", "{\"start\":1,\"start\",", "{\n\"start\": 1,\n\"end\": x}",
        "{\n\"start\": 1,\n\n\"end\":\n\n  \"y\"}", "{\"start\":1,\"end\":2} x",
        "{\"start\":1,\"end\":2}}", "{\"start\":1,\"end\":2} \n]", "{\"start\":1,\"end\":2,\"end\":3}",
        "{\"sta\\q", "{\"\n\":1}", "[", "[ ", "[,", "[1", "[1,", "[1,]", "[1 2]", "[1,2", "[1,2,]",
        "[1,2,3]", "[1,2 3]", "[1,2] 3", "[\"a\"]", "[1,\n \"a\"]", "[1.5]",
    ] {
        agree(text.as_bytes());
    }
    agree(b"{\"\xff\":1}");
}

#[test]
fn other_fields_are_passed_over_and_known_ones_stand_once() {
    let schema = [
        ("who", Kind::Text),
        ("host", Kind::MaybeText),
        ("port", Kind::MaybePort),
    ];
    let read = |s: &str| read_record(s.as_bytes(), "Peer", &schema);
    let v = read("{\"x\":[1,{\"who\":2}],\"who\":\"me\",\"y\":\"\\ud800\",\"x\":1e999}").unwrap();
    assert!(matches!(&v[0], Value::Text(s) if s == "me"));
    assert!(matches!(v[1], Value::MaybeText(None)));
    assert!(matches!(v[2], Value::MaybePort(None)));
    let v = read("{\"host\":\"h\",\"port\":65535,\"who\":\"\"}").unwrap();
    assert!(matches!(&v[1], Value::MaybeText(Some(h)) if h == "h"));
    assert!(matches!(v[2], Value::MaybePort(Some(65535))));
    let v = read("[\"me\",null,null]").unwrap();
    assert!(matches!(v[1], Value::MaybeText(None)));
    assert_eq!(
        read("{\"who\":\"a\",\"who\":\"b\"}").unwrap_err(),
        "duplicate field `who` at line 1 column 16"
    );
    assert_eq!(read("{\"host\":null}").unwrap_err(), "missing field `who` at line 1 column 13");
    assert_eq!(
        read("[\"me\",\"h\"]").unwrap_err(),
        "invalid length 2, expected struct Peer with 3 elements at line 1 column 10"
    );
    assert_eq!(
        read("{\"who\":\"a\",\"port\":65536}").unwrap_err(),
        "invalid value: integer `65536`, expected u16 at line 1 column 23"
    );
    assert_eq!(
        read("7").unwrap_err(),
        "invalid type: integer `7`, expected struct Peer at line 1 column 1"
    );
}

#[test]
fn a_layer_that_repeats_a_field_is_refused() {
    let secret = [7u8; 32];
    let public = x25519_dalek::PublicKey::from(&x25519_dalek::StaticSecret::from(secret));
    let hop = Hop { host: "h".into(), port: 1, static_pub: hex::encode(public.as_bytes()) };
    let cell = hex::decode(build(&[hop], b"x").unwrap().cell).unwrap();
    assert_eq!(peel(&hex::encode(&cell), &secret, "h", 1).unwrap().2, b"x");
    let mut twice = cell.clone();
    assert_eq!(twice.pop(), Some(b'}'));
    twice.extend_from_slice(b",\"aad\":\"h:1\"}");
    match peel(&hex::encode(&twice), &secret, "h", 1) {
        Err(Error::Onion(t)) => assert_eq!(
            t,
            format!(
                "layer wrapper: duplicate field `aad` at line 1 column {}",
                cell.len() - 1 + 6
            )
        ),
        other => panic!("{:?}", other),
    }
}

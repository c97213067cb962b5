use json2splunk::record::{to_json, Record};

fn s(text: &str) -> Vec<u8> {
    text.as_bytes().to_vec()
}

#[test]
fn scalars_serialize_compactly() {
    assert_eq!(to_json(&Record::Null), b"null");
    assert_eq!(to_json(&Record::Bool(true)), b"true");
    assert_eq!(to_json(&Record::Bool(false)), b"false");
    assert_eq!(to_json(&Record::Int(0)), b"0");
    assert_eq!(to_json(&Record::Int(-12)), b"-12");
    assert_eq!(to_json(&Record::Int(i64::MAX)), b"9223372036854775807");
    assert_eq!(to_json(&Record::Int(i64::MIN)), b"-9223372036854775808");
}

#[test]
fn micros_serialize_as_fractional_seconds() {
    assert_eq!(to_json(&Record::Micros(1_500_000)), b"1.500000");
    assert_eq!(to_json(&Record::Micros(0)), b"0.000000");
    assert_eq!(to_json(&Record::Micros(-500_000)), b"-0.500000");
    assert_eq!(
        to_json(&Record::Micros(1_700_000_000_123_456)),
        b"1700000000.123456"
    );
}

#[test]
fn strings_escape_like_json() {
    assert_eq!(to_json(&Record::Str(s("plain"))), b"\"plain\"");
    assert_eq!(to_json(&Record::Str(s("a\"b\\c"))), b"\"a\\\"b\\\\c\"");
    assert_eq!(to_json(&Record::Str(s("x\ny\t"))), b"\"x\\ny\\t\"");
    assert_eq!(to_json(&Record::Str(s("\u{1}"))), b"\"\\u0001\"");
    // non-ASCII passes through as raw UTF-8, as compact JSON does
    assert_eq!(to_json(&Record::Str(s("é"))), "\"é\"".as_bytes());
}

#[test]
fn trees_serialize_in_order() {
    let v = Record::Obj(vec![
        (s("a"), Record::Int(1)),
        (
            s("b"),
            Record::Arr(vec![Record::Null, Record::Str(s("x"))]),
        ),
    ]);
    assert_eq!(to_json(&v), br#"{"a":1,"b":[null,"x"]}"#);
}

#[test]
fn serialization_is_valid_json_for_serde() {
    let v = Record::Obj(vec![
        (s("k\"ey"), Record::Str(s("v\nal"))),
        (s("n"), Record::Int(-7)),
        (s("t"), Record::Micros(1_000_001)),
    ]);
    let bytes = to_json(&v);
    let parsed: serde_json::Value = serde_json::from_slice(&bytes).expect("must parse");
    assert_eq!(parsed["k\"ey"], serde_json::Value::String("v\nal".into()));
    assert_eq!(parsed["n"].as_i64(), Some(-7));
    assert_eq!(parsed["t"].as_f64(), Some(1.000001));
}

use chrono::TimeZone;
use json2splunk::normalize::{
    epoch_from_number, epoch_from_micros_value, extract_host_from_record,
    extract_timestamp_from_record, get_nested_value, hash_path, is_valid_hec_time,
    is_valid_hec_time_at, normalize_host, parse_decimal, parse_index, parse_timestamp_string,
};
use json2splunk::record::Record;

fn s(text: &str) -> Vec<u8> {
    text.as_bytes().to_vec()
}

fn sample_record() -> Record {
    Record::Obj(vec![
        (
            s("a"),
            Record::Obj(vec![(
                s("b"),
                Record::Arr(vec![
                    Record::Str(s("first")),
                    Record::Obj(vec![(s("c"), Record::Int(42))]),
                ]),
            )]),
        ),
        (s("host"), Record::Str(s("WEB01.example.com"))),
    ])
}

#[test]
fn nested_lookup_walks_maps_and_sequences() {
    let v = sample_record();
    match get_nested_value(&v, "a.b.1.c") {
        Some(Record::Int(n)) => assert_eq!(*n, 42),
        _ => panic!("expected the nested integer"),
    }
    match get_nested_value(&v, "a.b.0") {
        Some(Record::Str(b)) => assert_eq!(b, &s("first")),
        _ => panic!("expected the first element"),
    }
}

#[test]
fn nested_lookup_misses_are_absent_not_errors() {
    let v = sample_record();
    assert!(get_nested_value(&v, "a.missing").is_none());
    assert!(get_nested_value(&v, "a.b.7").is_none());
    assert!(get_nested_value(&v, "a.b.x").is_none());
    assert!(get_nested_value(&v, "host.deeper").is_none());
}

#[test]
fn index_segments_parse_like_usize() {
    assert_eq!(parse_index("0"), Some(0));
    assert_eq!(parse_index("007"), Some(7));
    assert_eq!(parse_index("+3"), Some(3));
    assert_eq!(parse_index(""), None);
    assert_eq!(parse_index("+"), None);
    assert_eq!(parse_index("-1"), None);
    assert_eq!(parse_index("4x"), None);
    assert_eq!(parse_index("99999999999999999999999999"), None);
}

#[test]
fn unit_inference_normalizes_all_magnitudes() {
    let micros = 1_700_000_000_000_000i64;
    assert_eq!(epoch_from_number(1_700_000_000), micros);
    assert_eq!(epoch_from_number(1_700_000_000_000), micros);
    assert_eq!(epoch_from_number(1_700_000_000_000_000), micros);
    assert_eq!(epoch_from_number(1_700_000_000_000_000_000), micros);
    assert_eq!(epoch_from_number(-1_700_000_000), -micros);
    assert_eq!(epoch_from_micros_value(1_500_000), 1_500_000);
}

#[test]
fn timestamp_strings_parse_with_each_fallback() {
    let rfc = "2023-11-14T22:13:20Z";
    let expected = chrono::DateTime::parse_from_rfc3339(rfc).unwrap().timestamp() * 1_000_000;
    assert_eq!(parse_timestamp_string(rfc, None), Some(expected));

    let fmt = "%Y-%m-%d %H:%M:%S";
    let plain = "2023-11-14 22:13:20";
    let ndt = chrono::NaiveDateTime::parse_from_str(plain, fmt).unwrap();
    let expected2 = chrono::Utc.from_utc_datetime(&ndt).timestamp() * 1_000_000;
    assert_eq!(parse_timestamp_string(plain, Some(fmt)), Some(expected2));

    assert_eq!(
        parse_timestamp_string("1700000000000", None),
        Some(1_700_000_000_000_000)
    );
    assert_eq!(
        parse_timestamp_string("1700000000.5", None),
        Some(1_700_000_000_500_000)
    );
    assert_eq!(parse_timestamp_string("not a time", None), None);
}

#[test]
fn decimal_parser_reads_sign_and_fraction() {
    assert_eq!(parse_decimal(b"123"), Some((false, 123, 0)));
    assert_eq!(parse_decimal(b"-4.25"), Some((true, 4, 250_000)));
    assert_eq!(parse_decimal(b"+7.0000005"), Some((false, 7, 0)));
    assert_eq!(parse_decimal(b"1."), None);
    assert_eq!(parse_decimal(b".5"), None);
    assert_eq!(parse_decimal(b"1e3"), None);
    assert_eq!(parse_decimal(b""), None);
}

#[test]
fn timestamp_extraction_tries_paths_in_order() {
    let v = Record::Obj(vec![
        (s("empty"), Record::Str(s(""))),
        (s("nothing"), Record::Null),
        (s("when"), Record::Int(1_700_000_000)),
        (s("later"), Record::Int(1_800_000_000)),
    ]);
    let paths = vec![
        "missing".to_string(),
        "nothing".to_string(),
        "empty".to_string(),
        "when".to_string(),
        "later".to_string(),
    ];
    assert_eq!(
        extract_timestamp_from_record(&v, &paths, None),
        Some(1_700_000_000_000_000)
    );
    let no_paths: Vec<String> = Vec::new();
    assert_eq!(extract_timestamp_from_record(&v, &no_paths, None), None);
}

#[test]
fn host_extraction_requires_a_string() {
    let v = sample_record();
    assert_eq!(
        extract_host_from_record(&v, "host"),
        Some(s("WEB01.example.com"))
    );
    assert_eq!(extract_host_from_record(&v, "a.b.1.c"), None);
    assert_eq!(extract_host_from_record(&v, "absent"), None);
}

#[test]
fn host_canonicalization_keeps_first_label() {
    assert_eq!(normalize_host("WEB01.example.com"), "web01");
    assert_eq!(normalize_host(""), "");
    assert_eq!(normalize_host("Single"), "single");
    assert_eq!(normalize_host(".Hidden"), ".hidden");
    // the lower-casing is real Unicode case folding, not a pass-through
    assert_eq!(normalize_host("\u{c4}BC.example"), "\u{e4}bc");
}

#[test]
fn timestamp_extraction_honours_the_explicit_format() {
    let v = Record::Obj(vec![(
        s("when"),
        Record::Str(s("2023-11-14 22:13:20")),
    )]);
    let paths = vec!["when".to_string()];
    let fmt = "%Y-%m-%d %H:%M:%S";
    let ndt = chrono::NaiveDateTime::parse_from_str("2023-11-14 22:13:20", fmt).unwrap();
    let expected = chrono::Utc.from_utc_datetime(&ndt).timestamp() * 1_000_000;
    assert_eq!(extract_timestamp_from_record(&v, &paths, Some(fmt)), Some(expected));
    // without the format the string is no RFC-3339 and no bare number
    assert_eq!(extract_timestamp_from_record(&v, &paths, None), None);
}

#[test]
fn path_fingerprint_matches_xxh3() {
    let p = "/var/log/app.log";
    assert_eq!(hash_path(p), xxhash_rust::xxh3::xxh3_64(p.as_bytes()));
    assert_ne!(hash_path("a"), hash_path("b"));
}

#[test]
fn time_plausibility_gate() {
    let now = chrono::Utc::now().timestamp();
    assert!(!is_valid_hec_time_at(-1, now));
    assert!(is_valid_hec_time_at(now * 1_000_000, now));
    let eleven_years = 11 * 365 * 24 * 3600;
    assert!(!is_valid_hec_time_at((now + eleven_years) * 1_000_000, now));
    // against the real clock
    assert!(!is_valid_hec_time(-1));
    assert!(is_valid_hec_time(now * 1_000_000));
    assert!(!is_valid_hec_time((now + eleven_years) * 1_000_000));
    // any timestamp between the epoch and ten years after it is owed
    // acceptance, whatever the clock reads
    assert!(is_valid_hec_time(0));
    assert!(is_valid_hec_time(1_000_000));
    assert!(is_valid_hec_time(315_360_000 * 1_000_000));
}

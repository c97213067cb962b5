use json2splunk::collector::HttpEventCollector;
use json2splunk::record::Record;

fn s(text: &str) -> Vec<u8> {
    text.as_bytes().to_vec()
}

fn json_client() -> HttpEventCollector {
    let mut c = HttpEventCollector::new("tok", "srv.example.com", "json");
    c.host = "testhost".to_string();
    c
}

#[test]
fn new_has_documented_defaults() {
    let c = HttpEventCollector::new("tok", "srv", "json");
    assert_eq!(c.token, "tok");
    assert_eq!(c.http_event_server, "srv");
    assert_eq!(c.http_event_port, "8088");
    assert!(c.http_event_server_ssl);
    assert!(!c.ssl_verify);
    assert!(c.index.is_none());
    assert!(c.sourcetype.is_none());
    assert!(!c.pop_null_fields);
    assert_eq!(c.max_byte_length, 100_000);
    assert_eq!(c.current_byte_length, 0);
    assert!(c.batch_events.is_empty());
}

#[test]
fn byte_accumulator_equals_sum_of_entry_lengths() {
    let mut c = json_client();
    for i in 0..5i64 {
        let payload = Record::Obj(vec![
            (s("host"), Record::Str(s("h"))),
            (s("time"), Record::Int(1)),
            (s("n"), Record::Int(i)),
        ]);
        let flushed = c.batch_event_at(payload, 0);
        assert!(flushed.is_none());
    }
    let total: usize = c.batch_events.iter().map(|e| e.len()).sum();
    assert_eq!(c.current_byte_length, total);
    assert_eq!(c.batch_events.len(), 5);
}

#[test]
fn structured_mode_defaults_host_and_time() {
    let mut c = json_client();
    let payload = Record::Obj(vec![(s("a"), Record::Int(1))]);
    assert!(c.batch_event_at(payload, 1_234_567).is_none());
    assert_eq!(
        c.batch_events[0],
        br#"{"a":1,"host":"testhost","time":1.234567}"#.to_vec()
    );

    // present fields stay untouched
    let mut c2 = json_client();
    let payload2 = Record::Obj(vec![
        (s("host"), Record::Str(s("given"))),
        (s("time"), Record::Int(7)),
    ]);
    assert!(c2.batch_event_at(payload2, 99).is_none());
    assert_eq!(c2.batch_events[0], br#"{"host":"given","time":7}"#.to_vec());
}

#[test]
fn null_fields_stripped_inside_event_only() {
    let mut c = json_client();
    c.pop_null_fields = true;
    let payload = Record::Obj(vec![
        (s("host"), Record::Str(s("h"))),
        (s("time"), Record::Int(1)),
        (s("outside"), Record::Null),
        (
            s("event"),
            Record::Obj(vec![
                (s("x"), Record::Null),
                (s("y"), Record::Int(2)),
            ]),
        ),
    ]);
    assert!(c.batch_event_at(payload, 0).is_none());
    assert_eq!(
        c.batch_events[0],
        br#"{"host":"h","time":1,"outside":null,"event":{"y":2}}"#.to_vec()
    );
}

#[test]
fn line_mode_guarantees_one_trailing_newline() {
    let mut c = HttpEventCollector::new("tok", "srv", "raw");
    assert!(c.batch_event_at(Record::Str(s("hello")), 0).is_none());
    assert_eq!(c.batch_events[0], b"\"hello\"\n".to_vec());
}

#[test]
fn over_budget_queue_flushes_existing_batch_first() {
    let mut c = json_client();
    c.max_byte_length = 60;
    let small = |n: i64| {
        Record::Obj(vec![
            (s("host"), Record::Str(s("h"))),
            (s("time"), Record::Int(n)),
        ])
    };
    assert!(c.batch_event_at(small(1), 0).is_none());
    assert!(c.batch_event_at(small(2), 0).is_none());
    let flushed = c.batch_event_at(small(3), 0).expect("must flush");
    assert_eq!(flushed.entries.len(), 2);
    let joined: Vec<u8> = flushed.entries.concat();
    assert_eq!(flushed.body, joined);
    // the new record starts a fresh buffer
    assert_eq!(c.batch_events.len(), 1);
    assert_eq!(c.current_byte_length, c.batch_events[0].len());
}

#[test]
fn oversized_record_is_sole_batch_content() {
    let mut c = json_client();
    c.max_byte_length = 10;
    let big = Record::Obj(vec![
        (s("host"), Record::Str(s("h"))),
        (s("time"), Record::Int(1)),
        (s("blob"), Record::Str(s("a very long payload body"))),
    ]);
    // nothing buffered yet: no flush, the record is accepted whole
    assert!(c.batch_event_at(big, 0).is_none());
    assert_eq!(c.batch_events.len(), 1);
    assert!(c.batch_events[0].len() > 10);
    assert_eq!(c.current_byte_length, c.batch_events[0].len());
}

#[test]
fn oversized_record_after_a_flush_stands_alone() {
    let mut c = json_client();
    c.max_byte_length = 60;
    let small = Record::Obj(vec![
        (s("host"), Record::Str(s("h"))),
        (s("time"), Record::Int(1)),
    ]);
    assert!(c.batch_event_at(small, 0).is_none());
    let big = Record::Obj(vec![
        (s("host"), Record::Str(s("h"))),
        (s("time"), Record::Int(1)),
        (s("blob"), Record::Str(s("a payload far beyond the sixty byte budget here"))),
    ]);
    let flushed = c.batch_event_at(big, 0).expect("the small batch flushes first");
    assert_eq!(flushed.entries.len(), 1);
    // the oversized record is the sole content of the fresh batch
    assert_eq!(c.batch_events.len(), 1);
    assert!(c.batch_events[0].len() > 60);
    assert_eq!(c.current_byte_length, c.batch_events[0].len());
}

#[test]
fn flush_batch_empties_the_buffer() {
    let mut c = json_client();
    assert!(c.flush_batch().is_none());
    let payload = Record::Obj(vec![
        (s("host"), Record::Str(s("h"))),
        (s("time"), Record::Int(1)),
    ]);
    assert!(c.batch_event_at(payload, 0).is_none());
    let pf = c.flush_batch().expect("non-empty buffer flushes");
    assert_eq!(pf.entries.len(), 1);
    assert_eq!(pf.body, pf.entries[0]);
    assert!(c.batch_events.is_empty());
    assert_eq!(c.current_byte_length, 0);
}

#[test]
fn server_uri_builds_each_shape() {
    let mut c = HttpEventCollector::new("tok", "srv.example.com", "json");
    assert_eq!(
        c.server_uri_with_channel("CH"),
        "https://srv.example.com:8088/services/collector/event"
    );
    c.sourcetype = Some("st".to_string());
    c.index = Some("main".to_string());
    assert_eq!(
        c.server_uri_with_channel("CH"),
        "https://srv.example.com:8088/services/collector/event?sourcetype=st&index=main"
    );
    c.http_event_server_ssl = false;
    c.input_type = "raw".to_string();
    assert_eq!(
        c.server_uri_with_channel("CH"),
        "http://srv.example.com:8088/services/collector/raw?channel=CH&sourcetype=st&index=main"
    );
    c.sourcetype = None;
    assert_eq!(
        c.server_uri_with_channel("CH"),
        "http://srv.example.com:8088/services/collector/raw?channel=CH&index=main"
    );
}

#[test]
fn server_uri_uses_a_fresh_uuid_channel() {
    let mut c = HttpEventCollector::new("tok", "srv", "raw");
    c.http_event_server_ssl = true;
    let uri1 = c.server_uri();
    let uri2 = c.server_uri();
    let channel_of = |uri: &str| {
        let start = uri.find("channel=").unwrap() + "channel=".len();
        uri[start..].to_string()
    };
    let c1 = channel_of(&uri1);
    let c2 = channel_of(&uri2);
    assert_eq!(c1.len(), 36);
    uuid::Uuid::parse_str(&c1).expect("channel must be a uuid");
    assert_ne!(c1, c2);
}

#[test]
fn auth_header_carries_the_token() {
    let c = HttpEventCollector::new("secret", "srv", "json");
    assert_eq!(c.auth_header_value(), "Splunk secret");
}

use dns_operator::manifest::{compose_document, parse_document, DocumentError, Manifest, ManifestBuilder};
use dns_operator::record::{
    clean_str, parse_ttl, split_str, OriginRecord, ParseError, Record, RecordData, SOARecord, TTLRecord,
};

const DOC_A: &str = "$ORIGIN example.com.\n$TTL 3600\nexample.com. IN SOA ns1.example.com. admin.example.com. 1 7200 3600 604800 300\nwww IN A 127.0.0.1";

fn rec(name: &str, kind: &str, value: &str) -> Record {
    Record::new(name.to_string(), "IN".to_string(), kind.to_string(), value.to_string())
}

#[test]
fn scenario_a_parses_one_address_record() {
    let m = parse_document(DOC_A).unwrap();
    assert_eq!(m.records().len(), 1);
    match &m.records()[0] {
        RecordData::A(r) => {
            assert_eq!(r.name, "www");
            assert_eq!(r.value, "127.0.0.1");
        }
        other => panic!("unexpected record {:?}", other),
    }
    assert_eq!(m.soa().serial, 1);
    assert_eq!(m.origin().origin, "example.com.");
    assert_eq!(m.ttl().ttl, 3600);
}

#[test]
fn scenario_b_add_nameserver_then_increment() {
    let doc = "$ORIGIN example.com.\n$TTL 3600\nexample.com. IN SOA ns1.example.com. admin.example.com. 1 7200 3600 604800 300";
    let mut b = ManifestBuilder::from_text(doc).unwrap();
    b.add_record(RecordData::NS(rec("ns2", "NS", "ns2.example.com.")));
    b.increment();
    let m = b.build();
    assert_eq!(m.soa().serial, 2);
    let text = compose_document(&m);
    assert_eq!(
        text,
        "$ORIGIN example.com.\n$TTL 3600\nexample.com. IN SOA ns1.example.com. admin.example.com. 2 7200 3600 604800 300\nns2 IN NS ns2.example.com."
    );
}

#[test]
fn round_trip_of_a_parsed_document() {
    let doc = "$ORIGIN zone.test.\n$TTL\t600\nzone.test.  IN SOA ns.zone.test. root.zone.test. +0042 x 60 y 5; authority\nwww IN A 10.0.0.1;web\nbad IN A 10.0.0.9 ; trailing field\n\ngarbage here\nns IN NS ns.zone.test.";
    let m = parse_document(doc).unwrap();
    let text = compose_document(&m);
    let again = parse_document(&text).unwrap();
    assert_eq!(again, m);
    assert_eq!(m.soa().serial, 42);
    assert_eq!(m.soa().refresh, 7200);
    assert_eq!(m.soa().expire, 604800);
    assert_eq!(m.ttl().ttl, 600);
    assert_eq!(m.records().len(), 2);
}

#[test]
fn partial_tolerance_drops_a_garbage_fourth_line() {
    let doc = "$ORIGIN example.com.\n$TTL 3600\nexample.com. IN SOA ns1.example.com. admin.example.com. 1 7200 3600 604800 300\nthis is not a record at all\nwww IN A 127.0.0.1";
    let m = parse_document(doc).unwrap();
    assert_eq!(m.records().len(), 1);
    assert_eq!(m.records()[0].get_name(), "www");
}

#[test]
fn missing_authority_line_is_expected_soa() {
    assert_eq!(parse_document("$ORIGIN a.\n$TTL 1\nwww IN A 1.2.3.4"), Err(DocumentError::ExpectedSOA));
    assert_eq!(parse_document("$ORIGIN a.\n$TTL 1"), Err(DocumentError::ExpectedSOA));
    assert_eq!(parse_document(""), Err(DocumentError::ExpectedSOA));
}

#[test]
fn invalid_utf8_is_refused() {
    assert_eq!(Manifest::_from_bytes(vec![0xff, 0xfe]), Err(DocumentError::InvalidUtf8));
}

#[test]
fn bytes_round_trip() {
    let m = parse_document(DOC_A).unwrap();
    let bytes = m._to_bytes();
    assert_eq!(bytes, DOC_A.as_bytes().to_vec());
    assert_eq!(Manifest::_from_bytes(bytes).unwrap(), m);
}

#[test]
fn arity_mismatch_reports_the_count() {
    assert_eq!(RecordData::from_str("a b c"), Err(ParseError::ArityMismatch { got: 3 }));
    assert_eq!(RecordData::from_str("a b c d e"), Err(ParseError::ArityMismatch { got: 5 }));
    assert_eq!(RecordData::from_str("a b c d e f g h i j k"), Err(ParseError::ArityMismatch { got: 11 }));
}

#[test]
fn empty_and_comment_lines_are_empty() {
    assert_eq!(RecordData::from_str(""), Err(ParseError::EmptyLine));
    assert_eq!(RecordData::from_str("; only a comment"), Err(ParseError::EmptyLine));
}

#[test]
fn unknown_kind_is_refused() {
    assert_eq!(
        RecordData::from_str("www IN MX mail"),
        Err(ParseError::UnknownRecordType("MX".to_string()))
    );
    assert_eq!(
        RecordData::from_str("a IN A b c 1 2 3 4 5"),
        Err(ParseError::UnknownRecordType("A".to_string()))
    );
}

#[test]
fn bad_serial_is_refused() {
    assert_eq!(
        RecordData::from_str("a IN SOA m r 4294967296 1 2 3 4"),
        Err(ParseError::InvalidSerial("4294967296".to_string()))
    );
    assert_eq!(
        RecordData::from_str("a IN SOA m r -1 1 2 3 4"),
        Err(ParseError::InvalidSerial("-1".to_string()))
    );
}

#[test]
fn soa_timers_fall_back_to_defaults() {
    match RecordData::from_str("a IN SOA m r 4294967295 x y z w").unwrap() {
        RecordData::SOA(s) => {
            assert_eq!(s.serial, 4294967295);
            assert_eq!((s.refresh, s.retry, s.expire, s.minimum), (7200, 3600, 604800, 300));
        }
        other => panic!("unexpected record {:?}", other),
    }
}

#[test]
fn clean_str_strips_comments_and_squeezes_spaces() {
    assert_eq!(clean_str("www   IN\tA  1.2.3.4 ; note ; more"), "www IN A 1.2.3.4 ");
    assert_eq!(split_str("www   IN A x"), vec!["www", "IN", "A", "x"]);
    assert_eq!(split_str(" a"), vec!["", "a"]);
}

#[test]
fn render_is_the_inverse_of_parse() {
    let line = "example.com. IN SOA ns1. admin. 7 1 2 3 4";
    let d = RecordData::from_str(line).unwrap();
    assert_eq!(d.render(), line);
    assert_eq!(d.get_type(), "SOA");
    let a = RecordData::from_str("www IN A 1.1.1.1").unwrap();
    assert_eq!(a.render(), "www IN A 1.1.1.1");
    assert_eq!(a.get_type(), "A");
}

#[test]
fn ttl_directive_and_fallbacks() {
    assert_eq!(parse_ttl("$TTL 86400"), 86400);
    assert_eq!(parse_ttl("$TTL  1 2"), 12);
    assert_eq!(parse_ttl("$TTL abc"), 3600);
    assert_eq!(parse_ttl("7200"), 3600);
    assert_eq!(TTLRecord::from_str("$TTL 60").render(), "$TTL 60");
    assert_eq!(TTLRecord::new().ttl, 0);
}

#[test]
fn origin_line_keeps_the_name() {
    assert_eq!(OriginRecord::from_str("$ORIGIN example.org.").origin, "example.org.");
    assert_eq!(OriginRecord::from_str("example.org.").origin, "example.org.");
    assert_eq!(OriginRecord::from_str("example.org.").render(), "$ORIGIN example.org.");
    assert_eq!(OriginRecord::new().origin, "example.com");
}

#[test]
fn increment_n_times_wraps() {
    let mut s = SOARecord::new();
    s.serial = u32::MAX - 1;
    for _ in 0..3 {
        s.increment();
    }
    assert_eq!(s.serial, 1);
    let mut b = ManifestBuilder::from_text(DOC_A).unwrap();
    for _ in 0..5 {
        b.increment();
    }
    assert_eq!(b.build().soa().serial, 6);
}

#[test]
fn add_record_upserts_in_place_or_appends() {
    let doc = format!("{}\nmail IN A 10.0.0.2\nwww IN NS ns.", DOC_A);
    let mut b = ManifestBuilder::from_text(&doc).unwrap();
    b.add_record(RecordData::A(rec("mail", "A", "10.9.9.9")));
    b.add_record(RecordData::A(rec("new", "A", "10.0.0.3")));
    let m = b.build();
    let names: Vec<String> = m.records().iter().map(|r| r.get_name()).collect();
    assert_eq!(names, vec!["www", "mail", "www", "new"]);
    assert_eq!(m.records()[1], RecordData::A(rec("mail", "A", "10.9.9.9")));
    assert_eq!(m.records()[2], RecordData::NS(rec("www", "NS", "ns.")));
}

#[test]
fn update_and_delete_without_match_change_nothing() {
    let mut b = ManifestBuilder::from_text(DOC_A).unwrap();
    b.update_record("www", RecordData::NS(rec("www", "NS", "ns.")));
    b.delete_record("www", "NS");
    b.delete_record("nobody", "A");
    let m = b.build();
    assert_eq!(compose_document(&m), DOC_A);
}

#[test]
fn update_and_delete_with_match() {
    let mut b = ManifestBuilder::from_text(DOC_A).unwrap();
    assert_eq!(b.get_record_by("www", "A"), Some(0));
    assert_eq!(b.get_record_by("www", "NS"), None);
    b.update_record("www", RecordData::A(rec("www", "A", "10.1.1.1")));
    let m = b.build();
    assert_eq!(m.records()[0].render(), "www IN A 10.1.1.1");
    let mut b = ManifestBuilder::_from(m);
    b.delete_record("www", "A");
    assert_eq!(b.build().records().len(), 0);
}

#[test]
fn build_leaves_a_blank_manifest() {
    let mut b = ManifestBuilder::from_text(DOC_A).unwrap();
    let first = b.build();
    assert_eq!(first.soa().serial, 1);
    let second = b.build();
    assert_eq!(second, Manifest::new());
    assert_eq!(second.origin().origin, "example.com");
    assert_eq!(second.records().len(), 0);
}

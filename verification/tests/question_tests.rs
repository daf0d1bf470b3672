use dns_codec::errors::DnsError;
use dns_codec::question::{parse_dns_str_to_string, DnsQuestion};

#[test]
fn question_write_bytes() {
    let q = DnsQuestion { name: "example.com".to_string(), dnstype: 1, dnsclass: 1 };
    let mut buf: Vec<u8> = Vec::new();
    let reported = q.write(&mut buf).unwrap();
    let mut expected: Vec<u8> = vec![7];
    expected.extend_from_slice(b"example");
    expected.push(3);
    expected.extend_from_slice(b"com");
    expected.extend_from_slice(&[0, 0x00, 0x01, 0x00, 0x01]);
    assert_eq!(buf, expected);
    assert_eq!(reported, 17);
}

#[test]
fn question_estimate_size() {
    let q = DnsQuestion { name: "example.com".to_string(), dnstype: 1, dnsclass: 1 };
    assert_eq!(q.estimate_size(), 17);
}

#[test]
fn question_empty_segments_are_skipped() {
    let q = DnsQuestion { name: "a..b.".to_string(), dnstype: 1, dnsclass: 1 };
    let mut buf: Vec<u8> = Vec::new();
    q.write(&mut buf).unwrap();
    assert_eq!(buf, vec![1, b'a', 1, b'b', 0, 0x00, 0x01, 0x00, 0x01]);
}

#[test]
fn question_long_label_is_rejected() {
    let long = "x".repeat(64);
    let q = DnsQuestion { name: format!("{}.com", long), dnstype: 1, dnsclass: 1 };
    let mut buf: Vec<u8> = vec![0xEE];
    assert_eq!(q.write(&mut buf).unwrap_err(), DnsError::LabelTooLong);
    assert_eq!(buf, vec![0xEE]);
    let longest = "y".repeat(63);
    let q2 = DnsQuestion { name: longest.clone(), dnstype: 1, dnsclass: 1 };
    let mut buf2: Vec<u8> = Vec::new();
    q2.write(&mut buf2).unwrap();
    assert_eq!(buf2[0], 63);
}

#[test]
fn question_from_bytes() {
    let mut buf: Vec<u8> = vec![7];
    buf.extend_from_slice(b"example");
    buf.push(3);
    buf.extend_from_slice(b"com");
    buf.extend_from_slice(&[0, 0x00, 0x0F, 0x00, 0x01]);
    let (q, consumed) = DnsQuestion::from_bytes(&buf).unwrap();
    assert_eq!(q.name, "example.com.");
    assert_eq!(q.dnstype, 15);
    assert_eq!(q.dnsclass, 1);
    assert_eq!(consumed, 17);
}

#[test]
fn question_without_terminator_is_malformed() {
    let buf = [3u8, b'c', b'o', b'm'];
    assert_eq!(
        DnsQuestion::from_bytes(&buf).unwrap_err(),
        DnsError::MalformedLabelSequence
    );
}

#[test]
fn question_missing_type_class_is_insufficient() {
    let buf = [3u8, b'c', b'o', b'm', 0, 0x00, 0x01];
    assert_eq!(
        DnsQuestion::from_bytes(&buf).unwrap_err(),
        DnsError::InsufficientBuffer
    );
}

#[test]
fn dotted_text_from_label_sequence() {
    let mut bytes: Vec<u8> = vec![4];
    bytes.extend_from_slice(b"mail");
    bytes.push(7);
    bytes.extend_from_slice(b"example");
    bytes.push(3);
    bytes.extend_from_slice(b"com");
    assert_eq!(parse_dns_str_to_string(&bytes), "mail.example.com.");
}

#[test]
fn dotted_text_of_cut_short_label_keeps_bytes_without_separator() {
    let bytes = [5u8, b'a', b'b'];
    assert_eq!(parse_dns_str_to_string(&bytes), "ab");
}

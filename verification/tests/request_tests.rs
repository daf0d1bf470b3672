use dns_codec::errors::DnsError;
use dns_codec::record::DnsRec;
use dns_codec::request::{DnsRequest, DnsResponse};

#[test]
fn end_to_end_encode_example_query() {
    let query = DnsRequest::build("example.com".to_string()).build_query().unwrap();
    let mut expected: Vec<u8> = vec![
        0x05, 0x39, 0x01, 0x00, 0x00, 0x01, 0x00, 0x00, 0x00, 0x00, 0x00, 0x00,
    ];
    expected.push(7);
    expected.extend_from_slice(b"example");
    expected.push(3);
    expected.extend_from_slice(b"com");
    expected.extend_from_slice(&[0, 0x00, 0x01, 0x00, 0x01]);
    assert_eq!(query, expected);
}

#[test]
fn request_type_tokens() {
    let req = DnsRequest::build("example.com".to_string());
    assert_eq!(req.request_type_code().unwrap(), 1);
    let req = req.request_type("SOA".to_string());
    assert_eq!(req.request_type_code().unwrap(), 6);
    let req = req.request_type("MX".to_string());
    assert_eq!(req.request_type_code().unwrap(), 15);
    let req = req.request_type("AAAA".to_string());
    assert_eq!(req.request_type_code().unwrap(), 28);
}

#[test]
fn unknown_request_type_is_rejected_before_building() {
    let req = DnsRequest::build("example.com".to_string()).request_type("TXT".to_string());
    assert_eq!(req.build_query().unwrap_err(), DnsError::UnknownRequestType);
}

#[test]
fn build_query_rejects_long_label() {
    let req = DnsRequest::build("z".repeat(64));
    assert_eq!(req.build_query().unwrap_err(), DnsError::LabelTooLong);
}

#[test]
fn mx_query_carries_its_type_code() {
    let query = DnsRequest::build("example.com".to_string())
        .request_type("MX".to_string())
        .build_query()
        .unwrap();
    // The two type bytes sit just before the two class bytes.
    assert_eq!(&query[query.len() - 4..], &[0x00, 0x0F, 0x00, 0x01]);
}

#[test]
fn decode_full_response() {
    let mut msg: Vec<u8> = vec![
        0xBE, 0xEF, 0x81, 0x80, 0x00, 0x01, 0x00, 0x01, 0x00, 0x00, 0x00, 0x00,
    ];
    msg.push(7);
    msg.extend_from_slice(b"example");
    msg.push(3);
    msg.extend_from_slice(b"com");
    msg.extend_from_slice(&[0, 0x00, 0x01, 0x00, 0x01]);
    msg.extend_from_slice(&[0xC0, 0x0C, 0x00, 0x01, 0x00, 0x01]);
    msg.extend_from_slice(&3600u32.to_be_bytes());
    msg.extend_from_slice(&[0x00, 0x04, 93, 184, 216, 34]);
    let resp = DnsResponse::from_bytes(&msg).unwrap();
    assert_eq!(resp.header.xid, 0xBEEF);
    assert!(resp.header.is_response());
    assert_eq!(resp.header.qdcount, 1);
    assert_eq!(resp.header.ancount, 1);
    assert_eq!(resp.questions.len(), 1);
    assert_eq!(resp.questions[0].name, "example.com.");
    assert_eq!(resp.questions[0].dnstype, 1);
    assert_eq!(resp.answers.len(), 1);
    match &resp.answers[0] {
        DnsRec::Ipv4(v) => {
            assert_eq!(v.address, u32::from_be_bytes([93, 184, 216, 34]));
            assert_eq!(v.ttl, 3600);
            assert_eq!(v.compression, 0x000C);
        }
        other => panic!("expected an address-v4 answer, got {:?}", other),
    }
    assert!(resp.authority.is_empty());
    assert!(resp.additional.is_empty());
}

#[test]
fn decode_response_with_compressed_answer_name_in_rdata() {
    // One question, one mail-exchange answer whose exchange name points
    // back at the question's name at offset 12.
    let mut msg: Vec<u8> = vec![
        0x00, 0x2A, 0x81, 0x80, 0x00, 0x01, 0x00, 0x01, 0x00, 0x00, 0x00, 0x00,
    ];
    msg.push(7);
    msg.extend_from_slice(b"example");
    msg.push(3);
    msg.extend_from_slice(b"com");
    msg.extend_from_slice(&[0, 0x00, 0x0F, 0x00, 0x01]);
    msg.extend_from_slice(&[0xC0, 0x0C, 0x00, 0x0F, 0x00, 0x01]);
    msg.extend_from_slice(&60u32.to_be_bytes());
    msg.extend_from_slice(&[0x00, 0x04, 0x00, 0x05, 0xC0, 0x0C]);
    let resp = DnsResponse::from_bytes(&msg).unwrap();
    match &resp.answers[0] {
        DnsRec::Mx(v) => {
            assert_eq!(v.preference, 5);
            assert_eq!(v.exchange, "example.com.");
        }
        other => panic!("expected a mail-exchange answer, got {:?}", other),
    }
}

#[test]
fn decode_response_short_header_is_insufficient() {
    let msg = [0u8; 5];
    assert_eq!(
        DnsResponse::from_bytes(&msg).unwrap_err(),
        DnsError::InsufficientBuffer
    );
}

#[test]
fn decode_response_propagates_record_errors() {
    // Header declares one answer, but the record's rdata is cut short.
    let mut msg: Vec<u8> = vec![
        0x00, 0x01, 0x81, 0x80, 0x00, 0x00, 0x00, 0x01, 0x00, 0x00, 0x00, 0x00,
    ];
    msg.extend_from_slice(&[0xC0, 0x0C, 0x00, 0x01, 0x00, 0x01, 0, 0, 0, 60, 0x00, 0x04, 127]);
    assert_eq!(
        DnsResponse::from_bytes(&msg).unwrap_err(),
        DnsError::TruncatedRdata
    );
}

#[test]
fn builder_keeps_name_and_replaces_type() {
    let req = DnsRequest::build("host.test".to_string());
    assert_eq!(req.name, "host.test");
    assert_eq!(req.request_type, "A");
    let req = req.request_type("AAAA".to_string());
    assert_eq!(req.name, "host.test");
    assert_eq!(req.request_type, "AAAA");
}

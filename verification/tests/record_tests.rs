use dns_codec::errors::DnsError;
use dns_codec::names::DnsNameExtractor;
use dns_codec::record::{DnsRec, DnsRecord};

fn record_bytes(record_type: u16, ttl: u32, rdata: &[u8]) -> Vec<u8> {
    let mut v: Vec<u8> = Vec::new();
    v.extend_from_slice(&[0xC0, 0x0C]);
    v.extend_from_slice(&record_type.to_be_bytes());
    v.extend_from_slice(&1u16.to_be_bytes());
    v.extend_from_slice(&ttl.to_be_bytes());
    v.extend_from_slice(&(rdata.len() as u16).to_be_bytes());
    v.extend_from_slice(rdata);
    v
}

#[test]
fn generic_record_decode() {
    let buf = record_bytes(0x0010, 300, &[1, 2, 3]);
    let (rec, consumed) = DnsRecord::from_bytes(&buf).unwrap();
    assert_eq!(rec.compression, 0x000C);
    assert_eq!(rec.record_type, 16);
    assert_eq!(rec.class, 1);
    assert_eq!(rec.ttl, 300);
    assert_eq!(rec.length, 3);
    assert_eq!(rec.rdata, vec![1, 2, 3]);
    assert_eq!(consumed, 15);
}

#[test]
fn record_envelope_under_length_is_insufficient() {
    let buf = [0u8; 11];
    assert_eq!(
        DnsRecord::from_bytes(&buf).unwrap_err(),
        DnsError::InsufficientBuffer
    );
}

#[test]
fn record_truncated_rdata() {
    let mut buf = record_bytes(1, 60, &[127, 0, 0, 1]);
    // Claim one more rdata byte than the buffer holds.
    buf[11] = 5;
    assert_eq!(
        DnsRecord::from_bytes(&buf).unwrap_err(),
        DnsError::TruncatedRdata
    );
}

#[test]
fn address_v4_record_decode() {
    let buf = record_bytes(1, 60, &[127, 0, 0, 1]);
    let extractor = DnsNameExtractor { bytes: &buf };
    let (rec, consumed) = DnsRecord::parse_bytes(&buf, extractor).unwrap();
    assert_eq!(consumed, 16);
    match rec {
        DnsRec::Ipv4(v) => {
            assert_eq!(v.address, 0x7F000001);
            assert_eq!(v.record_type, 1);
            assert_eq!(v.length, 4);
        }
        other => panic!("expected an address-v4 variant, got {:?}", other),
    }
}

#[test]
fn address_v6_record_decode() {
    let mut rdata = [0u8; 16];
    rdata[15] = 1;
    let buf = record_bytes(28, 60, &rdata);
    let extractor = DnsNameExtractor { bytes: &buf };
    let (rec, _) = DnsRecord::parse_bytes(&buf, extractor).unwrap();
    match rec {
        DnsRec::Ipv6(v) => {
            assert_eq!(v.address, 1u128);
            assert_eq!(v.record_type, 28);
        }
        other => panic!("expected an address-v6 variant, got {:?}", other),
    }
}

#[test]
fn address_v6_all_bytes_weighted() {
    let rdata: Vec<u8> = (1..=16).collect();
    let buf = record_bytes(28, 60, &rdata);
    let extractor = DnsNameExtractor { bytes: &buf };
    let (rec, _) = DnsRecord::parse_bytes(&buf, extractor).unwrap();
    match rec {
        DnsRec::Ipv6(v) => {
            assert_eq!(v.address, u128::from_be_bytes([
                1, 2, 3, 4, 5, 6, 7, 8, 9, 10, 11, 12, 13, 14, 15, 16,
            ]));
        }
        other => panic!("expected an address-v6 variant, got {:?}", other),
    }
}

#[test]
fn address_v4_wrong_rdata_size_is_insufficient() {
    let buf = record_bytes(1, 60, &[127, 0, 0]);
    let extractor = DnsNameExtractor { bytes: &buf };
    assert_eq!(
        DnsRecord::parse_bytes(&buf, extractor).unwrap_err(),
        DnsError::InsufficientBuffer
    );
}

#[test]
fn mail_exchange_record_decode() {
    let mut rdata: Vec<u8> = vec![0, 10, 4];
    rdata.extend_from_slice(b"mail");
    rdata.push(7);
    rdata.extend_from_slice(b"example");
    rdata.push(3);
    rdata.extend_from_slice(b"com");
    rdata.push(0);
    let buf = record_bytes(15, 60, &rdata);
    let extractor = DnsNameExtractor { bytes: &buf };
    let (rec, _) = DnsRecord::parse_bytes(&buf, extractor).unwrap();
    match rec {
        DnsRec::Mx(v) => {
            assert_eq!(v.preference, 10);
            assert_eq!(v.exchange, "mail.example.com.");
        }
        other => panic!("expected a mail-exchange variant, got {:?}", other),
    }
}

#[test]
fn mail_exchange_pointer_resolves_against_full_message() {
    // The exchange name in the rdata is just a pointer to the literal
    // name stored at offset 12 of the full message.
    let mut msg = vec![0u8; 12];
    msg.extend_from_slice(&[4]);
    msg.extend_from_slice(b"mail");
    msg.push(3);
    msg.extend_from_slice(b"com");
    msg.push(0);
    let record_start = msg.len();
    msg.extend_from_slice(&record_bytes(15, 60, &[0, 7, 0xC0, 0x0C]));
    let extractor = DnsNameExtractor { bytes: &msg };
    let (rec, _) = DnsRecord::parse_bytes(&msg[record_start..], extractor).unwrap();
    match rec {
        DnsRec::Mx(v) => {
            assert_eq!(v.preference, 7);
            assert_eq!(v.exchange, "mail.com.");
        }
        other => panic!("expected a mail-exchange variant, got {:?}", other),
    }
}

#[test]
fn start_of_authority_record_decode() {
    let mut rdata: Vec<u8> = vec![7];
    rdata.extend_from_slice(b"example");
    rdata.push(3);
    rdata.extend_from_slice(b"com");
    rdata.push(0);
    rdata.push(5);
    rdata.extend_from_slice(b"admin");
    rdata.push(0);
    rdata.extend_from_slice(&2024u32.to_be_bytes());
    rdata.extend_from_slice(&7200u32.to_be_bytes());
    rdata.extend_from_slice(&3600u32.to_be_bytes());
    rdata.extend_from_slice(&86400u32.to_be_bytes());
    let buf = record_bytes(6, 60, &rdata);
    let extractor = DnsNameExtractor { bytes: &buf };
    let (rec, _) = DnsRecord::parse_bytes(&buf, extractor).unwrap();
    match rec {
        DnsRec::Soa(v) => {
            assert_eq!(v.mname, "example.com.");
            assert_eq!(v.rname, "admin.");
            assert_eq!(v.serial, 2024);
            assert_eq!(v.refresh, 7200);
            assert_eq!(v.retry, 3600);
            assert_eq!(v.expire, 86400);
        }
        other => panic!("expected a start-of-authority variant, got {:?}", other),
    }
}

#[test]
fn start_of_authority_short_integers_is_insufficient() {
    // Two names but only 15 of the 16 integer bytes.
    let mut rdata: Vec<u8> = vec![1, b'a', 0, 1, b'b', 0];
    rdata.extend_from_slice(&[0u8; 15]);
    let buf = record_bytes(6, 60, &rdata);
    let extractor = DnsNameExtractor { bytes: &buf };
    assert_eq!(
        DnsRecord::parse_bytes(&buf, extractor).unwrap_err(),
        DnsError::InsufficientBuffer
    );
}

#[test]
fn unrecognised_type_falls_back_to_raw_rdata() {
    let rdata = [9u8, 8, 7, 6, 5];
    let buf = record_bytes(0x00FF, 60, &rdata);
    let extractor = DnsNameExtractor { bytes: &buf };
    let (rec, consumed) = DnsRecord::parse_bytes(&buf, extractor).unwrap();
    assert_eq!(consumed, 17);
    match rec {
        DnsRec::Other(r) => {
            assert_eq!(r.record_type, 255);
            assert_eq!(r.rdata, rdata.to_vec());
        }
        other => panic!("expected the fallback variant, got {:?}", other),
    }
}

//! The fixed 12-byte message header: six big-endian 16-bit fields in the
//! order id, flags, qdcount, ancount, nscount, arcount.

use vstd::prelude::*;

use crate::errors::DnsError;
use crate::wire::{
    lemma_be16_of_bytes, push_u16_be, read_u16_be, spec_be16, spec_hi, spec_lo, spec_u16_bytes,
};

verus! {

/// The transaction id, flag bitfield and four entry counts that open
/// every DNS message. Always exactly 12 bytes on the wire.
#[derive(Clone, Copy, Debug, PartialEq, Eq, Structural)]
pub struct DnsHeader {
    pub xid: u16,
    pub flags: u16,
    pub qdcount: u16,
    pub ancount: u16,
    pub nscount: u16,
    pub arcount: u16,
}

/// The 12 wire bytes of `h`: its six fields big-endian, in order.
pub open spec fn spec_header_bytes(h: DnsHeader) -> Seq<u8> {
    seq![
        spec_hi(h.xid),
        spec_lo(h.xid),
        spec_hi(h.flags),
        spec_lo(h.flags),
        spec_hi(h.qdcount),
        spec_lo(h.qdcount),
        spec_hi(h.ancount),
        spec_lo(h.ancount),
        spec_hi(h.nscount),
        spec_lo(h.nscount),
        spec_hi(h.arcount),
        spec_lo(h.arcount),
    ]
}

/// What decoding the front of `buf` as a header yields: the six fields
/// read big-endian and the 12 bytes consumed, or `InsufficientBuffer`
/// when fewer than 12 bytes are present.
pub open spec fn spec_parse_header(buf: Seq<u8>) -> Result<(DnsHeader, int), DnsError> {
    if buf.len() < 12 {
        Err(DnsError::InsufficientBuffer)
    } else {
        Ok(
            (
                DnsHeader {
                    xid: spec_be16(buf[0], buf[1]),
                    flags: spec_be16(buf[2], buf[3]),
                    qdcount: spec_be16(buf[4], buf[5]),
                    ancount: spec_be16(buf[6], buf[7]),
                    nscount: spec_be16(buf[8], buf[9]),
                    arcount: spec_be16(buf[10], buf[11]),
                },
                12,
            ),
        )
    }
}

impl DnsHeader {
    /// Appends the 12 wire bytes of this header to `buf` and reports how
    /// many bytes were written.
    pub fn write(&self, buf: &mut Vec<u8>) -> (r: Result<usize, DnsError>)
        ensures
            final(buf)@ == old(buf)@ + spec_header_bytes(*self),
            r == Ok::<usize, DnsError>(12usize),
    {
        let ghost orig = buf@;
        push_u16_be(buf, self.xid);
        push_u16_be(buf, self.flags);
        push_u16_be(buf, self.qdcount);
        push_u16_be(buf, self.ancount);
        push_u16_be(buf, self.nscount);
        push_u16_be(buf, self.arcount);
        assert(buf@ =~= orig + spec_header_bytes(*self));
        Ok(12)
    }

    /// Reads a header from the front of `bytes`, reporting the bytes
    /// consumed so a caller can advance its cursor.
    pub fn from_bytes(bytes: &[u8]) -> (r: Result<(DnsHeader, usize), DnsError>)
        ensures
            ({
                let s = spec_parse_header(bytes@);
                match r {
                    Ok((h, n)) => s == Ok::<(DnsHeader, int), DnsError>((h, n as int)),
                    Err(e) => s == Err::<(DnsHeader, int), DnsError>(e),
                }
            }),
    {
        if bytes.len() < 12 {
            return Err(DnsError::InsufficientBuffer);
        }
        let h = DnsHeader {
            xid: read_u16_be(bytes, 0),
            flags: read_u16_be(bytes, 2),
            qdcount: read_u16_be(bytes, 4),
            ancount: read_u16_be(bytes, 6),
            nscount: read_u16_be(bytes, 8),
            arcount: read_u16_be(bytes, 10),
        };
        Ok((h, 12))
    }

    /// Whether the low 4 bits of the flag field are clear, the shape this
    /// system expects of the responses it cares about.
    pub fn is_response(&self) -> (r: bool)
        ensures
            r == (self.flags % 16 == 0),
    {
        self.flags % 16 == 0
    }
}

/// Round trip: decoding the 12 bytes a header encodes to gives back that
/// very header, with 12 bytes consumed, for every header value.
pub proof fn lemma_header_round_trip(h: DnsHeader)
    ensures
        spec_parse_header(spec_header_bytes(h)) == Ok::<(DnsHeader, int), DnsError>((h, 12)),
{
    lemma_be16_of_bytes(h.xid);
    lemma_be16_of_bytes(h.flags);
    lemma_be16_of_bytes(h.qdcount);
    lemma_be16_of_bytes(h.ancount);
    lemma_be16_of_bytes(h.nscount);
    lemma_be16_of_bytes(h.arcount);
}

} // verus!

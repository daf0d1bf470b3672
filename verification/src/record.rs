//! Resource records: the generic fixed-shape envelope of an answer,
//! authority or additional entry, and the typed variants produced by
//! interpreting its rdata according to the 16-bit type code. Names
//! embedded in rdata resolve their compression pointers against the
//! full message, not the rdata slice alone.
//!
//! The owner-name field is always read as the 2-byte compressed-pointer
//! form, its top two bits masked off; a literal owner name is not
//! decoded to text by this system.

use vstd::prelude::*;
use vstd::slice::{slice_subrange, slice_to_vec};

use crate::errors::DnsError;
use crate::names::{lemma_parse_name_consumed, spec_parse_from, DnsNameExtractor};
use crate::wire::{read_u16_be, read_u32_be, spec_be16, spec_be32};

verus! {

/// The mathematical value of a generic resource record.
pub struct SpecRecord {
    pub compression: u16,
    pub record_type: u16,
    pub class: u16,
    pub ttl: u32,
    pub length: u16,
    pub rdata: Seq<u8>,
}

/// What decoding the front of `buf` as a generic record yields: the
/// 2-byte owner field with its top two bits masked, type, class, ttl
/// and rdata length read big-endian, then exactly `length` bytes of
/// rdata, with `12 + length` consumed. `InsufficientBuffer` when the
/// 12-byte envelope is cut short, `TruncatedRdata` when the declared
/// rdata runs past the end.
pub open spec fn spec_parse_record(buf: Seq<u8>) -> Result<(SpecRecord, int), DnsError> {
    if buf.len() < 12 {
        Err(DnsError::InsufficientBuffer)
    } else {
        let length = spec_be16(buf[10], buf[11]);
        if buf.len() < 12 + length {
            Err(DnsError::TruncatedRdata)
        } else {
            Ok(
                (
                    SpecRecord {
                        compression: (spec_be16(buf[0], buf[1]) as int % 0x4000) as u16,
                        record_type: spec_be16(buf[2], buf[3]),
                        class: spec_be16(buf[4], buf[5]),
                        ttl: spec_be32(buf[6], buf[7], buf[8], buf[9]),
                        length,
                        rdata: buf.subrange(12, 12 + length as int),
                    },
                    12 + length as int,
                ),
            )
        }
    }
}

/// A generic resource record, its rdata not yet interpreted.
#[derive(Debug)]
pub struct DnsRecord {
    pub compression: u16,
    pub record_type: u16,
    pub class: u16,
    pub ttl: u32,
    pub length: u16,
    pub rdata: Vec<u8>,
}

impl View for DnsRecord {
    type V = SpecRecord;

    open spec fn view(&self) -> SpecRecord {
        SpecRecord {
            compression: self.compression,
            record_type: self.record_type,
            class: self.class,
            ttl: self.ttl,
            length: self.length,
            rdata: self.rdata@,
        }
    }
}

/// An address record: exactly 4 bytes of rdata read as one big-endian
/// 32-bit address.
#[derive(Clone, Copy, Debug, PartialEq, Eq, Structural)]
pub struct DnsIpv4 {
    pub compression: u16,
    pub record_type: u16,
    pub class: u16,
    pub ttl: u32,
    pub length: u16,
    pub address: u32,
}

/// An address record: exactly 16 bytes of rdata read as one big-endian
/// 128-bit address.
#[derive(Clone, Copy, Debug, PartialEq, Eq, Structural)]
pub struct DnsIpv6 {
    pub compression: u16,
    pub record_type: u16,
    pub class: u16,
    pub ttl: u32,
    pub length: u16,
    pub address: u128,
}

/// A start-of-authority record: two embedded domain names, then four
/// 32-bit integers. The record format defines a fifth trailing integer
/// (the minimum ttl); this system reads only the four.
#[derive(Debug)]
pub struct DnsSoa {
    pub compression: u16,
    pub record_type: u16,
    pub class: u16,
    pub ttl: u32,
    pub length: u16,
    pub mname: String,
    pub rname: String,
    pub serial: u32,
    pub refresh: u32,
    pub retry: u32,
    pub expire: u32,
}

/// The mathematical value of a start-of-authority record.
pub struct SpecSoa {
    pub compression: u16,
    pub record_type: u16,
    pub class: u16,
    pub ttl: u32,
    pub length: u16,
    pub mname: Seq<char>,
    pub rname: Seq<char>,
    pub serial: u32,
    pub refresh: u32,
    pub retry: u32,
    pub expire: u32,
}

impl View for DnsSoa {
    type V = SpecSoa;

    open spec fn view(&self) -> SpecSoa {
        SpecSoa {
            compression: self.compression,
            record_type: self.record_type,
            class: self.class,
            ttl: self.ttl,
            length: self.length,
            mname: self.mname@,
            rname: self.rname@,
            serial: self.serial,
            refresh: self.refresh,
            retry: self.retry,
            expire: self.expire,
        }
    }
}

/// A mail-exchange record: a 16-bit preference, then one embedded
/// domain name.
#[derive(Debug)]
pub struct DnsMx {
    pub compression: u16,
    pub record_type: u16,
    pub class: u16,
    pub ttl: u32,
    pub length: u16,
    pub preference: u16,
    pub exchange: String,
}

/// The mathematical value of a mail-exchange record.
pub struct SpecMx {
    pub compression: u16,
    pub record_type: u16,
    pub class: u16,
    pub ttl: u32,
    pub length: u16,
    pub preference: u16,
    pub exchange: Seq<char>,
}

impl View for DnsMx {
    type V = SpecMx;

    open spec fn view(&self) -> SpecMx {
        SpecMx {
            compression: self.compression,
            record_type: self.record_type,
            class: self.class,
            ttl: self.ttl,
            length: self.length,
            preference: self.preference,
            exchange: self.exchange@,
        }
    }
}

/// The 128-bit value written big-endian as the 16 bytes of `s`.
pub open spec fn spec_be128(s: Seq<u8>) -> u128
    recommends
        s.len() == 16,
{
    (s[0] as int * 0x1000000000000000000000000000000 + s[1] as int * 0x10000000000000000000000000000
        + s[2] as int * 0x100000000000000000000000000 + s[3] as int * 0x1000000000000000000000000
        + s[4] as int * 0x10000000000000000000000 + s[5] as int * 0x100000000000000000000 + s[6] as int
        * 0x1000000000000000000 + s[7] as int * 0x10000000000000000 + s[8] as int * 0x100000000000000
        + s[9] as int * 0x1000000000000 + s[10] as int * 0x10000000000 + s[11] as int * 0x100000000
        + s[12] as int * 0x1000000 + s[13] as int * 0x10000 + s[14] as int * 256 + s[15] as int) as u128
}

/// What interpreting `rec` as an address-v4 record yields: its 4 rdata
/// bytes as one 32-bit address, or `InsufficientBuffer` when the rdata
/// is not exactly 4 bytes.
pub open spec fn spec_ipv4_from(rec: SpecRecord) -> Result<DnsIpv4, DnsError> {
    if rec.rdata.len() != 4 {
        Err(DnsError::InsufficientBuffer)
    } else {
        Ok(
            DnsIpv4 {
                compression: rec.compression,
                record_type: rec.record_type,
                class: rec.class,
                ttl: rec.ttl,
                length: rec.length,
                address: spec_be32(rec.rdata[0], rec.rdata[1], rec.rdata[2], rec.rdata[3]),
            },
        )
    }
}

/// What interpreting `rec` as an address-v6 record yields: its 16 rdata
/// bytes as one 128-bit address, or `InsufficientBuffer` when the rdata
/// is not exactly 16 bytes.
pub open spec fn spec_ipv6_from(rec: SpecRecord) -> Result<DnsIpv6, DnsError> {
    if rec.rdata.len() != 16 {
        Err(DnsError::InsufficientBuffer)
    } else {
        Ok(
            DnsIpv6 {
                compression: rec.compression,
                record_type: rec.record_type,
                class: rec.class,
                ttl: rec.ttl,
                length: rec.length,
                address: spec_be128(rec.rdata),
            },
        )
    }
}

/// What interpreting `rec` as a start-of-authority record yields: two
/// names decoded in turn from the front of the rdata, the cursor
/// advancing by each decode's consumed count, then serial, refresh,
/// retry and expire as big-endian 32-bit integers. Pointers resolve
/// against the full message `msg`.
pub open spec fn spec_soa_from(msg: Seq<u8>, rec: SpecRecord) -> Result<SpecSoa, DnsError> {
    match spec_parse_from(msg, rec.rdata) {
        Err(e) => Err(e),
        Ok((mname, n1)) => match spec_parse_from(msg, rec.rdata.skip(n1)) {
            Err(e) => Err(e),
            Ok((rname, n2)) => {
                let off = n1 + n2;
                if rec.rdata.len() < off + 16 {
                    Err(DnsError::InsufficientBuffer)
                } else {
                    Ok(
                        SpecSoa {
                            compression: rec.compression,
                            record_type: rec.record_type,
                            class: rec.class,
                            ttl: rec.ttl,
                            length: rec.length,
                            mname,
                            rname,
                            serial: spec_be32(
                                rec.rdata[off],
                                rec.rdata[off + 1],
                                rec.rdata[off + 2],
                                rec.rdata[off + 3],
                            ),
                            refresh: spec_be32(
                                rec.rdata[off + 4],
                                rec.rdata[off + 5],
                                rec.rdata[off + 6],
                                rec.rdata[off + 7],
                            ),
                            retry: spec_be32(
                                rec.rdata[off + 8],
                                rec.rdata[off + 9],
                                rec.rdata[off + 10],
                                rec.rdata[off + 11],
                            ),
                            expire: spec_be32(
                                rec.rdata[off + 12],
                                rec.rdata[off + 13],
                                rec.rdata[off + 14],
                                rec.rdata[off + 15],
                            ),
                        },
                    )
                }
            },
        },
    }
}

/// What interpreting `rec` as a mail-exchange record yields: the first
/// two rdata bytes as the big-endian preference, then one name decoded
/// from the rest of the rdata, its pointers resolved against the full
/// message `msg`. `InsufficientBuffer` when the rdata holds fewer than
/// the two preference bytes.
pub open spec fn spec_mx_from(msg: Seq<u8>, rec: SpecRecord) -> Result<SpecMx, DnsError> {
    if rec.rdata.len() < 2 {
        Err(DnsError::InsufficientBuffer)
    } else {
        match spec_parse_from(msg, rec.rdata.skip(2)) {
            Err(e) => Err(e),
            Ok((exchange, _)) => Ok(
                SpecMx {
                    compression: rec.compression,
                    record_type: rec.record_type,
                    class: rec.class,
                    ttl: rec.ttl,
                    length: rec.length,
                    preference: spec_be16(rec.rdata[0], rec.rdata[1]),
                    exchange,
                },
            ),
        }
    }
}

impl DnsIpv4 {
    /// Interprets a generic record's rdata as a 32-bit address.
    pub fn from_record(rec: &DnsRecord) -> (r: Result<DnsIpv4, DnsError>)
        ensures
            ({
                let s = spec_ipv4_from(rec@);
                match r {
                    Ok(v) => s == Ok::<DnsIpv4, DnsError>(v),
                    Err(e) => s == Err::<DnsIpv4, DnsError>(e),
                }
            }),
    {
        if rec.rdata.len() != 4 {
            return Err(DnsError::InsufficientBuffer);
        }
        Ok(
            DnsIpv4 {
                compression: rec.compression,
                record_type: rec.record_type,
                class: rec.class,
                ttl: rec.ttl,
                length: rec.length,
                address: read_u32_be(rec.rdata.as_slice(), 0),
            },
        )
    }
}

impl DnsIpv6 {
    /// Interprets a generic record's rdata as a 128-bit address.
    pub fn from_record(rec: &DnsRecord) -> (r: Result<DnsIpv6, DnsError>)
        ensures
            ({
                let s = spec_ipv6_from(rec@);
                match r {
                    Ok(v) => s == Ok::<DnsIpv6, DnsError>(v),
                    Err(e) => s == Err::<DnsIpv6, DnsError>(e),
                }
            }),
    {
        if rec.rdata.len() != 16 {
            return Err(DnsError::InsufficientBuffer);
        }
        let d = rec.rdata.as_slice();
        let hi = read_u32_be(d, 0);
        let m1 = read_u32_be(d, 4);
        let m2 = read_u32_be(d, 8);
        let lo = read_u32_be(d, 12);
        let address = (hi as u128) * 0x1000000000000000000000000u128 + (m1 as u128)
            * 0x10000000000000000u128 + (m2 as u128) * 0x100000000u128 + (lo as u128);
        Ok(
            DnsIpv6 {
                compression: rec.compression,
                record_type: rec.record_type,
                class: rec.class,
                ttl: rec.ttl,
                length: rec.length,
                address,
            },
        )
    }
}

impl DnsSoa {
    /// Interprets a generic record's rdata as a start-of-authority
    /// record, resolving embedded names against the full message held
    /// by `name_extractor`.
    pub fn from_record(rec: &DnsRecord, name_extractor: DnsNameExtractor<'_>) -> (r: Result<
        DnsSoa,
        DnsError,
    >)
        ensures
            ({
                let s = spec_soa_from(name_extractor.bytes@, rec@);
                match r {
                    Ok(v) => s == Ok::<SpecSoa, DnsError>(v@),
                    Err(e) => s == Err::<SpecSoa, DnsError>(e),
                }
            }),
    {
        let d = rec.rdata.as_slice();
        let (mname, n1) = match name_extractor.parse_from_buffer(d) {
            Ok(p) => p,
            Err(e) => {
                return Err(e);
            },
        };
        proof {
            lemma_parse_name_consumed(
                name_extractor.bytes@,
                rec.rdata@,
                Seq::<char>::empty(),
                name_extractor.bytes@.len() as nat,
            );
        }
        let rest = slice_subrange(d, n1, rec.rdata.len());
        proof {
            assert(rest@ =~= rec.rdata@.skip(n1 as int));
        }
        let (rname, n2) = match name_extractor.parse_from_buffer(rest) {
            Ok(p) => p,
            Err(e) => {
                return Err(e);
            },
        };
        proof {
            lemma_parse_name_consumed(
                name_extractor.bytes@,
                rest@,
                Seq::<char>::empty(),
                name_extractor.bytes@.len() as nat,
            );
        }
        let off = n1 + n2;
        if rec.rdata.len() - off < 16 {
            return Err(DnsError::InsufficientBuffer);
        }
        Ok(
            DnsSoa {
                compression: rec.compression,
                record_type: rec.record_type,
                class: rec.class,
                ttl: rec.ttl,
                length: rec.length,
                mname,
                rname,
                serial: read_u32_be(d, off),
                refresh: read_u32_be(d, off + 4),
                retry: read_u32_be(d, off + 8),
                expire: read_u32_be(d, off + 12),
            },
        )
    }
}

impl DnsMx {
    /// Interprets a generic record's rdata as a mail-exchange record,
    /// resolving the exchange name against the full message held by
    /// `name_extractor`.
    pub fn from_record(rec: &DnsRecord, name_extractor: DnsNameExtractor<'_>) -> (r: Result<
        DnsMx,
        DnsError,
    >)
        ensures
            ({
                let s = spec_mx_from(name_extractor.bytes@, rec@);
                match r {
                    Ok(v) => s == Ok::<SpecMx, DnsError>(v@),
                    Err(e) => s == Err::<SpecMx, DnsError>(e),
                }
            }),
    {
        if rec.rdata.len() < 2 {
            return Err(DnsError::InsufficientBuffer);
        }
        let d = rec.rdata.as_slice();
        let rest = slice_subrange(d, 2, rec.rdata.len());
        proof {
            assert(rest@ =~= rec.rdata@.skip(2));
        }
        let (exchange, _consumed) = match name_extractor.parse_from_buffer(rest) {
            Ok(p) => p,
            Err(e) => {
                return Err(e);
            },
        };
        Ok(
            DnsMx {
                compression: rec.compression,
                record_type: rec.record_type,
                class: rec.class,
                ttl: rec.ttl,
                length: rec.length,
                preference: read_u16_be(d, 0),
                exchange,
            },
        )
    }
}

/// A decoded entry, keyed by its record type: the recognised typed
/// variants, or the generic record with its raw rdata kept verbatim for
/// any unrecognised type.
#[derive(Debug)]
pub enum DnsRec {
    Ipv4(DnsIpv4),
    Ipv6(DnsIpv6),
    Soa(DnsSoa),
    Mx(DnsMx),
    Other(DnsRecord),
}

/// The mathematical value of a decoded entry.
pub enum SpecRec {
    Ipv4(DnsIpv4),
    Ipv6(DnsIpv6),
    Soa(SpecSoa),
    Mx(SpecMx),
    Other(SpecRecord),
}

impl View for DnsRec {
    type V = SpecRec;

    open spec fn view(&self) -> SpecRec {
        match self {
            DnsRec::Ipv4(v) => SpecRec::Ipv4(*v),
            DnsRec::Ipv6(v) => SpecRec::Ipv6(*v),
            DnsRec::Soa(v) => SpecRec::Soa(v@),
            DnsRec::Mx(v) => SpecRec::Mx(v@),
            DnsRec::Other(v) => SpecRec::Other(v@),
        }
    }
}

impl DeepView for DnsRec {
    type V = SpecRec;

    open spec fn deep_view(&self) -> SpecRec {
        self@
    }
}

/// What decoding the front of `buf` and dispatching on the type code
/// yields: type 1 an address-v4, 6 a start-of-authority, 15 a
/// mail-exchange, 28 an address-v6, any other type the generic record
/// kept as the fallback. An unrecognised type is not an error.
pub open spec fn spec_parse_typed(msg: Seq<u8>, buf: Seq<u8>) -> Result<(SpecRec, int), DnsError> {
    match spec_parse_record(buf) {
        Err(e) => Err(e),
        Ok((rec, n)) => if rec.record_type == 1 {
            match spec_ipv4_from(rec) {
                Ok(v) => Ok((SpecRec::Ipv4(v), n)),
                Err(e) => Err(e),
            }
        } else if rec.record_type == 6 {
            match spec_soa_from(msg, rec) {
                Ok(v) => Ok((SpecRec::Soa(v), n)),
                Err(e) => Err(e),
            }
        } else if rec.record_type == 15 {
            match spec_mx_from(msg, rec) {
                Ok(v) => Ok((SpecRec::Mx(v), n)),
                Err(e) => Err(e),
            }
        } else if rec.record_type == 28 {
            match spec_ipv6_from(rec) {
                Ok(v) => Ok((SpecRec::Ipv6(v), n)),
                Err(e) => Err(e),
            }
        } else {
            Ok((SpecRec::Other(rec), n))
        },
    }
}

impl DnsRecord {
    /// Reads a generic record from the front of `bytes`, reporting the
    /// bytes consumed so a caller can advance its cursor.
    pub fn from_bytes(bytes: &[u8]) -> (r: Result<(DnsRecord, usize), DnsError>)
        ensures
            ({
                let s = spec_parse_record(bytes@);
                match r {
                    Ok((rec, n)) => s == Ok::<(SpecRecord, int), DnsError>((rec@, n as int)),
                    Err(e) => s == Err::<(SpecRecord, int), DnsError>(e),
                }
            }),
    {
        if bytes.len() < 12 {
            return Err(DnsError::InsufficientBuffer);
        }
        let compression = read_u16_be(bytes, 0) % 0x4000;
        let record_type = read_u16_be(bytes, 2);
        let class = read_u16_be(bytes, 4);
        let ttl = read_u32_be(bytes, 6);
        let length = read_u16_be(bytes, 10);
        if bytes.len() - 12 < length as usize {
            return Err(DnsError::TruncatedRdata);
        }
        let rdata = slice_to_vec(slice_subrange(bytes, 12, 12 + length as usize));
        Ok(
            (
                DnsRecord { compression, record_type, class, ttl, length, rdata },
                12 + length as usize,
            ),
        )
    }

    /// Reads a generic record from the front of `bytes` and produces its
    /// typed variant, resolving any embedded names against the full
    /// message held by `name_extractor`.
    pub fn parse_bytes(bytes: &[u8], name_extractor: DnsNameExtractor<'_>) -> (r: Result<
        (DnsRec, usize),
        DnsError,
    >)
        ensures
            ({
                let s = spec_parse_typed(name_extractor.bytes@, bytes@);
                match r {
                    Ok((rec, n)) => s == Ok::<(SpecRec, int), DnsError>((rec@, n as int)),
                    Err(e) => s == Err::<(SpecRec, int), DnsError>(e),
                }
            }),
    {
        let (record, offset) = match Self::from_bytes(bytes) {
            Ok(p) => p,
            Err(e) => {
                return Err(e);
            },
        };
        if record.record_type == 1 {
            match DnsIpv4::from_record(&record) {
                Ok(v) => Ok((DnsRec::Ipv4(v), offset)),
                Err(e) => Err(e),
            }
        } else if record.record_type == 6 {
            match DnsSoa::from_record(&record, name_extractor) {
                Ok(v) => Ok((DnsRec::Soa(v), offset)),
                Err(e) => Err(e),
            }
        } else if record.record_type == 15 {
            match DnsMx::from_record(&record, name_extractor) {
                Ok(v) => Ok((DnsRec::Mx(v), offset)),
                Err(e) => Err(e),
            }
        } else if record.record_type == 28 {
            match DnsIpv6::from_record(&record) {
                Ok(v) => Ok((DnsRec::Ipv6(v), offset)),
                Err(e) => Err(e),
            }
        } else {
            Ok((DnsRec::Other(record), offset))
        }
    }
}

} // verus!

//! Building a query message and decoding a whole response. A query is
//! a fixed header followed by one question; a response is a header
//! whose count fields drive a loop over the questions and three loops
//! over the answer, authority and additional records, all sharing one
//! name-resolution view of the full buffer.

use vstd::prelude::*;
use vstd::slice::slice_subrange;
use vstd::string::StringExecFns;
use vstd::utf8::{encode_utf8, is_ascii_chars};

use crate::errors::DnsError;
use crate::header::{spec_header_bytes, spec_parse_header, DnsHeader};
use crate::names::DnsNameExtractor;
use crate::question::{spec_encode_question, spec_parse_question, DnsQuestion, SpecQuestion};
use crate::record::{spec_parse_typed, DnsRec, DnsRecord, SpecRec};
use crate::wire::str_eq;

verus! {

/// The numeric type code for a textual query-type token, or nothing
/// for a token this system does not build queries for.
pub open spec fn spec_request_type_code(rt: Seq<char>) -> Option<u16> {
    if rt == seq!['A'] {
        Some(1u16)
    } else if rt == seq!['S', 'O', 'A'] {
        Some(6u16)
    } else if rt == seq!['M', 'X'] {
        Some(15u16)
    } else if rt == seq!['A', 'A', 'A', 'A'] {
        Some(28u16)
    } else {
        None
    }
}

/// The fixed header every query is built with: transaction id 1337,
/// the recursion-desired flag, and a single question.
pub open spec fn spec_query_header() -> DnsHeader {
    DnsHeader {
        xid: 1337u16,
        flags: 0x0100u16,
        qdcount: 1u16,
        ancount: 0u16,
        nscount: 0u16,
        arcount: 0u16,
    }
}

/// What building a query for `name` with the type token `rt` yields:
/// the fixed header's bytes followed by the question's, the question
/// carrying the token's type code and class 1. An unrecognised token is
/// rejected, before anything is built, as `UnknownRequestType`.
pub open spec fn spec_build_query(name: Seq<char>, rt: Seq<char>) -> Result<Seq<u8>, DnsError> {
    match spec_request_type_code(rt) {
        None => Err(DnsError::UnknownRequestType),
        Some(code) => match spec_encode_question(name, code, 1u16) {
            Ok(q) => Ok(spec_header_bytes(spec_query_header()) + q),
            Err(e) => Err(e),
        },
    }
}

/// A query to be built: the domain name asked about and the textual
/// query-type token.
#[derive(Debug)]
pub struct DnsRequest {
    pub name: String,
    pub request_type: String,
}

impl DnsRequest {
    /// A request for `name`, with the address type as its default token.
    pub fn build(name: String) -> (r: DnsRequest)
        ensures
            r.name@ == name@,
            r.request_type@ == seq!['A'],
    {
        let rt = String::from_str("A");
        proof {
            reveal_strlit("A");
            assert(rt@ =~= seq!['A']);
        }
        DnsRequest { name, request_type: rt }
    }

    /// The same request with its type token replaced.
    pub fn request_type(self, request_type: String) -> (r: DnsRequest)
        ensures
            r.name@ == self.name@,
            r.request_type@ == request_type@,
    {
        DnsRequest { request_type, ..self }
    }

    /// The numeric type code for this request's token, or
    /// `UnknownRequestType` for a token the encoder does not recognise.
    pub fn request_type_code(&self) -> (r: Result<u16, DnsError>)
        ensures
            ({
                match spec_request_type_code(self.request_type@) {
                    Some(code) => r == Ok::<u16, DnsError>(code),
                    None => r == Err::<u16, DnsError>(DnsError::UnknownRequestType),
                }
            }),
    {
        proof {
            reveal_strlit("A");
            reveal_strlit("SOA");
            reveal_strlit("MX");
            reveal_strlit("AAAA");
            assert("A"@ =~= seq!['A']);
            assert("SOA"@ =~= seq!['S', 'O', 'A']);
            assert("MX"@ =~= seq!['M', 'X']);
            assert("AAAA"@ =~= seq!['A', 'A', 'A', 'A']);
        }
        let rt = self.request_type.as_str();
        if str_eq(rt, "A") {
            Ok(1)
        } else if str_eq(rt, "SOA") {
            Ok(6)
        } else if str_eq(rt, "MX") {
            Ok(15)
        } else if str_eq(rt, "AAAA") {
            Ok(28)
        } else {
            Err(DnsError::UnknownRequestType)
        }
    }

    /// The wire bytes of the query this request describes: the fixed
    /// header, then one question for the name with the token's type
    /// code and class 1.
    pub fn build_query(&self) -> (r: Result<Vec<u8>, DnsError>)
        requires
            is_ascii_chars(self.name@),
            encode_utf8(self.name@).len() + 6 <= usize::MAX,
        ensures
            ({
                let s = spec_build_query(self.name@, self.request_type@);
                match r {
                    Ok(v) => s == Ok::<Seq<u8>, DnsError>(v@),
                    Err(e) => s == Err::<Seq<u8>, DnsError>(e),
                }
            }),
    {
        let code = match self.request_type_code() {
            Ok(c) => c,
            Err(e) => {
                return Err(e);
            },
        };
        let header = DnsHeader {
            xid: 1337u16,
            flags: 0x0100u16,
            qdcount: 1u16,
            ancount: 0,
            nscount: 0,
            arcount: 0,
        };
        let question = DnsQuestion { name: self.name.clone(), dnstype: code, dnsclass: 1u16 };
        let mut p: Vec<u8> = Vec::new();
        let _ = header.write(&mut p);
        match question.write(&mut p) {
            Ok(_) => Ok(p),
            Err(e) => Err(e),
        }
    }
}

/// The mathematical value of a decoded response.
pub struct SpecResponse {
    pub header: DnsHeader,
    pub questions: Seq<SpecQuestion>,
    pub answers: Seq<SpecRec>,
    pub authority: Seq<SpecRec>,
    pub additional: Seq<SpecRec>,
}

/// What decoding `n` consecutive questions of `msg`, the first at
/// `off`, yields: their values in order and the offset past the last.
pub open spec fn spec_parse_questions(msg: Seq<u8>, off: int, n: nat) -> Result<
    (Seq<SpecQuestion>, int),
    DnsError,
>
    decreases n,
{
    if n == 0 {
        Ok((seq![], off))
    } else {
        match spec_parse_question(msg.skip(off)) {
            Err(e) => Err(e),
            Ok((q, c)) => match spec_parse_questions(msg, off + c, (n - 1) as nat) {
                Err(e) => Err(e),
                Ok((qs, end)) => Ok((seq![q] + qs, end)),
            },
        }
    }
}

/// What decoding `n` consecutive typed records of `msg`, the first at
/// `off`, yields: their values in order and the offset past the last.
/// Names embedded in rdata resolve against the whole of `msg`.
pub open spec fn spec_parse_records(msg: Seq<u8>, off: int, n: nat) -> Result<
    (Seq<SpecRec>, int),
    DnsError,
>
    decreases n,
{
    if n == 0 {
        Ok((seq![], off))
    } else {
        match spec_parse_typed(msg, msg.skip(off)) {
            Err(e) => Err(e),
            Ok((rec, c)) => match spec_parse_records(msg, off + c, (n - 1) as nat) {
                Err(e) => Err(e),
                Ok((rs, end)) => Ok((seq![rec] + rs, end)),
            },
        }
    }
}

/// What decoding a full response buffer yields: its header, then as
/// many questions and answer, authority and additional records as the
/// header's counts declare, decoded consecutively from byte 12 on.
pub open spec fn spec_decode_response(msg: Seq<u8>) -> Result<SpecResponse, DnsError> {
    match spec_parse_header(msg) {
        Err(e) => Err(e),
        Ok((header, hn)) => match spec_parse_questions(msg, hn, header.qdcount as nat) {
            Err(e) => Err(e),
            Ok((questions, o1)) => match spec_parse_records(msg, o1, header.ancount as nat) {
                Err(e) => Err(e),
                Ok((answers, o2)) => match spec_parse_records(msg, o2, header.nscount as nat) {
                    Err(e) => Err(e),
                    Ok((authority, o3)) => match spec_parse_records(
                        msg,
                        o3,
                        header.arcount as nat,
                    ) {
                        Err(e) => Err(e),
                        Ok((additional, _)) => Ok(
                            SpecResponse { header, questions, answers, authority, additional },
                        ),
                    },
                },
            },
        },
    }
}

/// A decoded response: the header and every entry its counts declare.
#[derive(Debug)]
pub struct DnsResponse {
    pub header: DnsHeader,
    pub questions: Vec<DnsQuestion>,
    pub answers: Vec<DnsRec>,
    pub authority: Vec<DnsRec>,
    pub additional: Vec<DnsRec>,
}

impl View for DnsResponse {
    type V = SpecResponse;

    open spec fn view(&self) -> SpecResponse {
        SpecResponse {
            header: self.header,
            questions: self.questions.deep_view(),
            answers: self.answers.deep_view(),
            authority: self.authority.deep_view(),
            additional: self.additional.deep_view(),
        }
    }
}

/// The recursion behind the question loop: one call per question.
fn parse_questions(msg: &[u8], off: usize, n: u16) -> (r: Result<
    (Vec<DnsQuestion>, usize),
    DnsError,
>)
    requires
        off <= msg@.len(),
    ensures
        ({
            let s = spec_parse_questions(msg@, off as int, n as nat);
            match r {
                Ok((qs, end)) => s == Ok::<(Seq<SpecQuestion>, int), DnsError>(
                    (qs.deep_view(), end as int),
                ) && end <= msg@.len(),
                Err(e) => s == Err::<(Seq<SpecQuestion>, int), DnsError>(e),
            }
        }),
    decreases n,
{
    if n == 0 {
        let v: Vec<DnsQuestion> = Vec::new();
        proof {
            assert(v.deep_view() =~= Seq::<SpecQuestion>::empty());
        }
        return Ok((v, off));
    }
    let sub = slice_subrange(msg, off, msg.len());
    proof {
        assert(sub@ =~= msg@.skip(off as int));
    }
    match DnsQuestion::from_bytes(sub) {
        Err(e) => Err(e),
        Ok((q, c)) => {
            assert(c <= sub@.len());
            match parse_questions(msg, off + c, n - 1) {
                Err(e) => Err(e),
                Ok((rest, end)) => {
                    let ghost rest_seq = rest@;
                    let ghost rest_dv = rest.deep_view();
                    let mut v: Vec<DnsQuestion> = Vec::new();
                    v.push(q);
                    let mut rest = rest;
                    v.append(&mut rest);
                    proof {
                        let dv = v.deep_view();
                        let expect = seq![v@[0]@] + rest_dv;
                        assert(dv.len() == expect.len());
                        assert forall|i: int| 0 <= i < dv.len() implies dv[i] == expect[i] by {
                            if i > 0 {
                                assert(v@[i] == rest_seq[i - 1]);
                            }
                        }
                        assert(dv =~= expect);
                    }
                    Ok((v, end))
                },
            }
        },
    }
}

/// The recursion behind the three record loops: one call per record,
/// every embedded name resolved against the full message held by
/// `name_extractor`.
fn parse_records(name_extractor: DnsNameExtractor<'_>, off: usize, n: u16) -> (r: Result<
    (Vec<DnsRec>, usize),
    DnsError,
>)
    requires
        off <= name_extractor.bytes@.len(),
    ensures
        ({
            let s = spec_parse_records(name_extractor.bytes@, off as int, n as nat);
            match r {
                Ok((rs, end)) => s == Ok::<(Seq<SpecRec>, int), DnsError>(
                    (rs.deep_view(), end as int),
                ) && end <= name_extractor.bytes@.len(),
                Err(e) => s == Err::<(Seq<SpecRec>, int), DnsError>(e),
            }
        }),
    decreases n,
{
    let msg = name_extractor.bytes;
    if n == 0 {
        let v: Vec<DnsRec> = Vec::new();
        proof {
            assert(v.deep_view() =~= Seq::<SpecRec>::empty());
        }
        return Ok((v, off));
    }
    let sub = slice_subrange(msg, off, msg.len());
    proof {
        assert(sub@ =~= msg@.skip(off as int));
    }
    match DnsRecord::parse_bytes(sub, name_extractor) {
        Err(e) => Err(e),
        Ok((rec, c)) => {
            assert(c <= sub@.len());
            match parse_records(name_extractor, off + c, n - 1) {
                Err(e) => Err(e),
                Ok((rest, end)) => {
                    let ghost rest_seq = rest@;
                    let ghost rest_dv = rest.deep_view();
                    let mut v: Vec<DnsRec> = Vec::new();
                    v.push(rec);
                    let mut rest = rest;
                    v.append(&mut rest);
                    proof {
                        let dv = v.deep_view();
                        let expect = seq![v@[0]@] + rest_dv;
                        assert(dv.len() == expect.len());
                        assert forall|i: int| 0 <= i < dv.len() implies dv[i] == expect[i] by {
                            if i > 0 {
                                assert(v@[i] == rest_seq[i - 1]);
                            }
                        }
                        assert(dv =~= expect);
                    }
                    Ok((v, end))
                },
            }
        },
    }
}

impl DnsResponse {
    /// Decodes a full response buffer: the header, then every question
    /// and record its counts declare, sharing one name-resolution view
    /// bound to the whole of `msg`.
    pub fn from_bytes(msg: &[u8]) -> (r: Result<DnsResponse, DnsError>)
        ensures
            ({
                let s = spec_decode_response(msg@);
                match r {
                    Ok(resp) => s == Ok::<SpecResponse, DnsError>(resp@),
                    Err(e) => s == Err::<SpecResponse, DnsError>(e),
                }
            }),
    {
        let (header, skip) = match DnsHeader::from_bytes(msg) {
            Ok(p) => p,
            Err(e) => {
                return Err(e);
            },
        };
        let name_extractor = DnsNameExtractor { bytes: msg };
        let (questions, o1) = match parse_questions(msg, skip, header.qdcount) {
            Ok(p) => p,
            Err(e) => {
                return Err(e);
            },
        };
        let (answers, o2) = match parse_records(name_extractor, o1, header.ancount) {
            Ok(p) => p,
            Err(e) => {
                return Err(e);
            },
        };
        let (authority, o3) = match parse_records(name_extractor, o2, header.nscount) {
            Ok(p) => p,
            Err(e) => {
                return Err(e);
            },
        };
        let (additional, _o4) = match parse_records(name_extractor, o3, header.arcount) {
            Ok(p) => p,
            Err(e) => {
                return Err(e);
            },
        };
        Ok(DnsResponse { header, questions, answers, authority, additional })
    }
}

} // verus!

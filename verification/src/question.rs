//! The question entry: a domain name, a 16-bit query type and a 16-bit
//! query class. Encoding splits the textual name on `.` and emits each
//! non-empty segment as a length byte followed by its bytes, then a zero
//! terminator. Decoding reads a zero-terminated label sequence directly
//! from the buffer — no pointer support on this path, unlike the name
//! decoding used for records — and turns it into dotted text.

use vstd::prelude::*;
use vstd::slice::slice_subrange;
use vstd::utf8::{encode_utf8, is_ascii_chars, is_ascii_chars_encode_utf8};

use crate::errors::DnsError;
use crate::wire::{
    push_bytes_as_chars, push_char, push_u16_be, read_u16_be, spec_be16, spec_bytes_as_chars,
    spec_u16_bytes,
};

verus! {

/// The index of the first occurrence of `b` in `s`, or `s.len()` when
/// `s` does not hold it.
pub open spec fn index_of_first(s: Seq<u8>, b: u8) -> int
    decreases s.len(),
{
    if s.len() == 0 {
        0
    } else if s[0] == b {
        0
    } else {
        1 + index_of_first(s.skip(1), b)
    }
}

/// A left-to-right scan that stops at `j` has found the first occurrence.
pub proof fn lemma_index_of_first(s: Seq<u8>, b: u8, j: int)
    requires
        0 <= j <= s.len(),
        forall|k: int| 0 <= k < j ==> s[k] != b,
        j == s.len() || s[j] == b,
    ensures
        index_of_first(s, b) == j,
    decreases j,
{
    if j > 0 {
        assert forall|k: int| 0 <= k < j - 1 implies s.skip(1)[k] != b by {
            assert(s.skip(1)[k] == s[k + 1]);
        }
        lemma_index_of_first(s.skip(1), b, j - 1);
    }
}

/// A textual name's characters as bytes, the form the wire carries.
pub open spec fn spec_name_bytes(name: Seq<char>) -> Seq<u8> {
    name.map_values(|c: char| c as u8)
}

/// What encoding the textual name `name` as wire labels yields, without
/// the terminator: each non-empty `.`-separated segment becomes a length
/// byte and its bytes, and a segment longer than 63 bytes is the
/// caller's error `LabelTooLong`.
pub open spec fn spec_encode_labels(name: Seq<u8>) -> Result<Seq<u8>, DnsError>
    decreases name.len(),
    via spec_encode_labels_decreases
{
    if name.len() == 0 {
        Ok(seq![])
    } else {
        let seg = index_of_first(name, 46);
        if seg > 63 {
            Err(DnsError::LabelTooLong)
        } else {
            let rest = if seg < name.len() {
                name.skip(seg + 1)
            } else {
                name.skip(seg)
            };
            match spec_encode_labels(rest) {
                Ok(t) => if seg == 0 {
                    Ok(t)
                } else {
                    Ok(seq![seg as u8] + name.take(seg) + t)
                },
                Err(e) => Err(e),
            }
        }
    }
}

/// The first occurrence found by `index_of_first` never lies outside
/// `s` and its surroundings.
pub proof fn lemma_index_of_first_bounds(s: Seq<u8>, b: u8)
    ensures
        0 <= index_of_first(s, b) <= s.len(),
    decreases s.len(),
{
    if s.len() > 0 && s[0] != b {
        lemma_index_of_first_bounds(s.skip(1), b);
    }
}

#[via_fn]
proof fn spec_encode_labels_decreases(name: Seq<u8>) {
    lemma_index_of_first_bounds(name, 46);
}

/// What encoding a whole question yields: the name's labels, the zero
/// terminator, then type and class big-endian.
pub open spec fn spec_encode_question(name: Seq<char>, t: u16, c: u16) -> Result<
    Seq<u8>,
    DnsError,
> {
    match spec_encode_labels(spec_name_bytes(name)) {
        Ok(l) => Ok(l + seq![0u8] + spec_u16_bytes(t) + spec_u16_bytes(c)),
        Err(e) => Err(e),
    }
}

/// Dotted text read from a label sequence (without its terminator): each
/// length byte is followed by that many literal bytes, a separator is
/// appended after every completed label, a zero length byte is skipped,
/// and a label cut short by the end of the input keeps its bytes but
/// earns no separator.
pub open spec fn spec_dotted(s: Seq<u8>) -> Seq<char>
    decreases s.len(),
{
    if s.len() == 0 {
        seq![]
    } else {
        let n = s[0] as int;
        if n == 0 {
            spec_dotted(s.skip(1))
        } else if s.len() - 1 < n {
            spec_bytes_as_chars(s.skip(1))
        } else {
            spec_bytes_as_chars(s.subrange(1, n + 1)) + seq!['.'] + spec_dotted(s.skip(n + 1))
        }
    }
}

/// The mathematical value of a decoded question.
pub struct SpecQuestion {
    pub name: Seq<char>,
    pub dnstype: u16,
    pub dnsclass: u16,
}

/// What decoding the front of `buf` as a question yields: the dotted
/// text of the labels before the first zero byte, then type and class,
/// and the bytes consumed including the terminator. `MalformedLabelSequence`
/// when no zero byte terminates the labels, `InsufficientBuffer` when the
/// four type and class bytes run past the end.
pub open spec fn spec_parse_question(buf: Seq<u8>) -> Result<(SpecQuestion, int), DnsError> {
    let z = index_of_first(buf, 0);
    if z == buf.len() {
        Err(DnsError::MalformedLabelSequence)
    } else if buf.len() < z + 5 {
        Err(DnsError::InsufficientBuffer)
    } else {
        Ok(
            (
                SpecQuestion {
                    name: spec_dotted(buf.take(z)),
                    dnstype: spec_be16(buf[z + 1], buf[z + 2]),
                    dnsclass: spec_be16(buf[z + 3], buf[z + 4]),
                },
                z + 5,
            ),
        )
    }
}

/// One question entry: domain name, query type and query class (always
/// 1, the internet class, in this system).
#[derive(Debug)]
pub struct DnsQuestion {
    pub name: String,
    pub dnstype: u16,
    pub dnsclass: u16,
}

impl View for DnsQuestion {
    type V = SpecQuestion;

    open spec fn view(&self) -> SpecQuestion {
        SpecQuestion { name: self.name@, dnstype: self.dnstype, dnsclass: self.dnsclass }
    }
}

impl DeepView for DnsQuestion {
    type V = SpecQuestion;

    open spec fn deep_view(&self) -> SpecQuestion {
        self@
    }
}

/// The recursion behind `hostname_to_packet`: encodes the segments of
/// `name[i..]` onto `out`, one call per segment.
fn encode_labels_rec(name: &[u8], i: usize, out: Vec<u8>) -> (r: Result<Vec<u8>, DnsError>)
    requires
        i <= name@.len(),
    ensures
        ({
            let s = spec_encode_labels(name@.skip(i as int));
            match r {
                Ok(v) => s matches Ok(t) && v@ == out@ + t,
                Err(e) => s == Err::<Seq<u8>, DnsError>(e),
            }
        }),
    decreases name@.len() - i,
{
    if i == name.len() {
        proof {
            assert(name@.skip(i as int) =~= Seq::<u8>::empty());
            assert(out@ + Seq::<u8>::empty() =~= out@);
        }
        return Ok(out);
    }
    let mut j = i;
    while j < name.len() && name[j] != 46
        invariant
            i <= j <= name@.len(),
            forall|k: int| i <= k < j ==> name@[k] != 46,
        decreases name@.len() - j,
    {
        j = j + 1;
    }
    let seg = j - i;
    proof {
        let tail = name@.skip(i as int);
        assert forall|k: int| 0 <= k < seg implies tail[k] != 46 by {
            assert(tail[k] == name@[i + k]);
        }
        assert(seg == tail.len() || tail[seg as int] == 46);
        lemma_index_of_first(tail, 46, seg as int);
    }
    if seg > 63 {
        return Err(DnsError::LabelTooLong);
    }
    let mut o = out;
    if seg > 0 {
        o.push(seg as u8);
        let mut k = i;
        while k < j
            invariant
                i <= k <= j <= name@.len(),
                seg == j - i,
                o@ == out@ + seq![seg as u8] + name@.subrange(i as int, k as int),
            decreases j - k,
        {
            o.push(name[k]);
            k = k + 1;
            proof {
                assert(name@.subrange(i as int, k as int) =~= name@.subrange(
                    i as int,
                    k - 1,
                ).push(name@[k - 1]));
                assert(o@ =~= out@ + seq![seg as u8] + name@.subrange(i as int, k as int));
            }
        }
    }
    let next = if j < name.len() {
        j + 1
    } else {
        j
    };
    let r = encode_labels_rec(name, next, o);
    proof {
        let tail = name@.skip(i as int);
        assert(name@.skip(next as int) =~= (if seg < tail.len() {
            tail.skip(seg + 1)
        } else {
            tail.skip(seg as int)
        }));
        assert(tail.take(seg as int) =~= name@.subrange(i as int, j as int));
        if seg > 0 {
            if r is Ok {
                let t = spec_encode_labels(name@.skip(next as int))->Ok_0;
                assert((out@ + seq![seg as u8] + name@.subrange(i as int, j as int)) + t =~= out@
                    + (seq![seg as u8] + tail.take(seg as int) + t));
            }
        }
    }
    r
}

/// The recursion behind `parse_dns_str_to_string`: appends the dotted
/// text of `bytes[i..]` to `acc`, one call per label.
fn dotted_rec(bytes: &[u8], i: usize, acc: String) -> (r: String)
    requires
        i <= bytes@.len(),
    ensures
        r@ == acc@ + spec_dotted(bytes@.skip(i as int)),
    decreases bytes@.len() - i,
{
    if i == bytes.len() {
        proof {
            assert(bytes@.skip(i as int) =~= Seq::<u8>::empty());
            assert(acc@ + Seq::<char>::empty() =~= acc@);
        }
        return acc;
    }
    let n = bytes[i] as usize;
    let ghost tail = bytes@.skip(i as int);
    if n == 0 {
        let r = dotted_rec(bytes, i + 1, acc);
        proof {
            assert(bytes@.skip(i as int + 1) =~= tail.skip(1));
        }
        r
    } else if bytes.len() - (i + 1) < n {
        let mut a = acc;
        push_bytes_as_chars(&mut a, bytes, i + 1, bytes.len());
        proof {
            assert(bytes@.subrange(i as int + 1, bytes@.len() as int) =~= tail.skip(1));
        }
        a
    } else {
        let mut a = acc;
        push_bytes_as_chars(&mut a, bytes, i + 1, i + 1 + n);
        push_char(&mut a, '.');
        let r = dotted_rec(bytes, i + 1 + n, a);
        proof {
            assert(bytes@.subrange(i as int + 1, i as int + 1 + n as int) =~= tail.subrange(
                1,
                n as int + 1,
            ));
            assert(bytes@.skip(i as int + 1 + n as int) =~= tail.skip(n as int + 1));
            assert(acc@ + spec_bytes_as_chars(tail.subrange(1, n as int + 1)) + seq!['.']
                + spec_dotted(tail.skip(n as int + 1)) =~= acc@ + (spec_bytes_as_chars(
                tail.subrange(1, n as int + 1),
            ) + seq!['.'] + spec_dotted(tail.skip(n as int + 1))));
            assert((acc@ + spec_bytes_as_chars(tail.subrange(1, n as int + 1))).push('.') =~= acc@
                + spec_bytes_as_chars(tail.subrange(1, n as int + 1)) + seq!['.']);
        }
        r
    }
}

/// Converts a label sequence, as read from the wire before its zero
/// terminator, into dotted text, keeping a separator after every
/// completed label.
pub fn parse_dns_str_to_string(bytes: &[u8]) -> (r: String)
    ensures
        r@ == spec_dotted(bytes@),
{
    let r = dotted_rec(bytes, 0, String::new());
    proof {
        assert(bytes@.skip(0) =~= bytes@);
        assert(Seq::<char>::empty() + spec_dotted(bytes@) =~= spec_dotted(bytes@));
    }
    r
}

impl DnsQuestion {
    /// The wire labels of this question's name, without the terminator.
    pub fn hostname_to_packet(&self) -> (r: Result<Vec<u8>, DnsError>)
        requires
            is_ascii_chars(self.name@),
        ensures
            ({
                let s = spec_encode_labels(spec_name_bytes(self.name@));
                match r {
                    Ok(v) => s == Ok::<Seq<u8>, DnsError>(v@),
                    Err(e) => s == Err::<Seq<u8>, DnsError>(e),
                }
            }),
    {
        let bytes = self.name.as_str().as_bytes();
        proof {
            is_ascii_chars_encode_utf8(self.name@);
            assert(bytes@ =~= spec_name_bytes(self.name@));
            assert(bytes@.skip(0) =~= bytes@);
        }
        match encode_labels_rec(bytes, 0, Vec::new()) {
            Ok(v) => {
                proof {
                    let t = spec_encode_labels(bytes@)->Ok_0;
                    assert(Seq::<u8>::empty() + t =~= t);
                }
                Ok(v)
            },
            Err(e) => Err(e),
        }
    }

    /// The exact byte length of this question on the wire when every
    /// segment of the name is non-empty: the name's bytes, one length
    /// byte and the terminator, and two bytes each for type and class.
    pub fn estimate_size(&self) -> (r: usize)
        requires
            encode_utf8(self.name@).len() + 6 <= usize::MAX,
        ensures
            r == encode_utf8(self.name@).len() + 6,
    {
        self.name.as_str().len() + 2 + 2 + 2
    }

    /// Appends this question's wire bytes — labels, terminator, type,
    /// class — to `buf`, reporting `estimate_size`. On `LabelTooLong`
    /// the buffer is left as it was.
    pub fn write(&self, buf: &mut Vec<u8>) -> (r: Result<usize, DnsError>)
        requires
            is_ascii_chars(self.name@),
            encode_utf8(self.name@).len() + 6 <= usize::MAX,
        ensures
            ({
                let s = spec_encode_question(self.name@, self.dnstype, self.dnsclass);
                match r {
                    Ok(n) => s matches Ok(enc) && final(buf)@ == old(buf)@ + enc && n
                        == encode_utf8(self.name@).len() + 6,
                    Err(e) => s == Err::<Seq<u8>, DnsError>(e) && final(buf)@ == old(buf)@,
                }
            }),
    {
        match self.hostname_to_packet() {
            Err(e) => Err(e),
            Ok(labels) => {
                let ghost orig = buf@;
                let mut labels = labels;
                buf.append(&mut labels);
                buf.push(0u8);
                push_u16_be(buf, self.dnstype);
                push_u16_be(buf, self.dnsclass);
                proof {
                    let enc = spec_encode_question(self.name@, self.dnstype, self.dnsclass)->Ok_0;
                    assert(buf@ =~= orig + enc);
                }
                Ok(self.estimate_size())
            },
        }
    }

    /// Reads a question from the front of `bytes`, reporting the bytes
    /// consumed so a caller can advance its cursor.
    pub fn from_bytes(bytes: &[u8]) -> (r: Result<(DnsQuestion, usize), DnsError>)
        ensures
            ({
                let s = spec_parse_question(bytes@);
                match r {
                    Ok((q, n)) => s == Ok::<(SpecQuestion, int), DnsError>((q@, n as int)),
                    Err(e) => s == Err::<(SpecQuestion, int), DnsError>(e),
                }
            }),
    {
        let mut z: usize = 0;
        while z < bytes.len() && bytes[z] != 0
            invariant
                z <= bytes@.len(),
                forall|k: int| 0 <= k < z ==> bytes@[k] != 0,
            decreases bytes@.len() - z,
        {
            z = z + 1;
        }
        proof {
            lemma_index_of_first(bytes@, 0, z as int);
        }
        if z == bytes.len() {
            return Err(DnsError::MalformedLabelSequence);
        }
        if bytes.len() - z < 5 {
            return Err(DnsError::InsufficientBuffer);
        }
        let name_slice = slice_subrange(bytes, 0, z);
        proof {
            assert(name_slice@ =~= bytes@.take(z as int));
        }
        let name = parse_dns_str_to_string(name_slice);
        let dnstype = read_u16_be(bytes, z + 1);
        let dnsclass = read_u16_be(bytes, z + 3);
        Ok((DnsQuestion { name, dnstype, dnsclass }, z + 5))
    }
}

} // verus!

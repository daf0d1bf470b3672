//! Decoding wire-format domain names, including decompression: a length
//! byte above 63 marks a two-byte pointer whose low 14 bits are an
//! absolute offset into the full message, where decoding continues.
//!
//! Decoded names keep a trailing separator for the root label
//! (`"example.com."`), because a separator is appended before the
//! terminator byte is recognised whenever the accumulated text is
//! non-empty.

use vstd::prelude::*;
use vstd::slice::slice_subrange;
use vstd::string::StringExecFns;

use crate::errors::DnsError;
use crate::wire::{push_bytes_as_chars, push_char, spec_bytes_as_chars};

verus! {

/// What decoding a name from the front of `buf` yields, with pointers
/// resolved against `msg` and at most `fuel` pointers followed: the text
/// accumulated onto `acc` and the bytes consumed from `buf` itself (a
/// pointer consumes exactly 2, whatever it references), or the error met
/// first. A label consumes its length byte and its bytes; the terminator
/// consumes 1; text past a pointer is accumulated afresh.
pub open spec fn spec_parse_name(msg: Seq<u8>, buf: Seq<u8>, acc: Seq<char>, fuel: nat) -> Result<
    (Seq<char>, int),
    DnsError,
>
    decreases fuel, buf.len(),
{
    if buf.len() == 0 {
        Err(DnsError::MalformedLabelSequence)
    } else {
        let c = buf[0];
        let acc2 = if acc.len() > 0 {
            acc.push('.')
        } else {
            acc
        };
        if c == 0 {
            Ok((acc2, 1))
        } else if c <= 63 {
            if buf.len() < 1 + c {
                Err(DnsError::MalformedLabelSequence)
            } else {
                match spec_parse_name(
                    msg,
                    buf.skip(1 + c as int),
                    acc2 + spec_bytes_as_chars(buf.subrange(1, 1 + c as int)),
                    fuel,
                ) {
                    Ok((s, n)) => Ok((s, n + 1 + c)),
                    Err(e) => Err(e),
                }
            }
        } else {
            if buf.len() < 2 {
                Err(DnsError::InsufficientBuffer)
            } else {
                let ptr = (c as int % 64) * 256 + buf[1] as int;
                if ptr >= msg.len() {
                    Err(DnsError::PointerOutOfBounds)
                } else if fuel == 0 {
                    Err(DnsError::CompressionLoopDetected)
                } else {
                    match spec_parse_name(msg, msg.skip(ptr), Seq::empty(), (fuel - 1) as nat) {
                        Ok((s, _)) => Ok((acc2 + s, 2)),
                        Err(e) => Err(e),
                    }
                }
            }
        }
    }
}

/// What `DnsNameExtractor::parse_from_buffer` yields: a name decode from
/// the front of `buf` against the full message `msg`, starting from empty
/// text. `msg.len()` pointer jumps are enough for any chain that never
/// revisits an offset, since each jump targets a distinct offset of
/// `msg`; a chain still running after that many has revisited one, and
/// yields `CompressionLoopDetected`.
pub open spec fn spec_parse_from(msg: Seq<u8>, buf: Seq<u8>) -> Result<(Seq<char>, int), DnsError> {
    spec_parse_name(msg, buf, Seq::empty(), msg.len())
}

/// A successful name decode consumes at least the terminator or pointer
/// and never more than the buffer holds.
pub proof fn lemma_parse_name_consumed(msg: Seq<u8>, buf: Seq<u8>, acc: Seq<char>, fuel: nat)
    ensures
        spec_parse_name(msg, buf, acc, fuel) matches Ok((s, n)) ==> 1 <= n <= buf.len(),
    decreases fuel, buf.len(),
{
    if buf.len() == 0 {
    } else {
        let c = buf[0];
        let acc2 = if acc.len() > 0 {
            acc.push('.')
        } else {
            acc
        };
        if c == 0 {
        } else if c <= 63 {
            if buf.len() >= 1 + c {
                lemma_parse_name_consumed(
                    msg,
                    buf.skip(1 + c as int),
                    acc2 + spec_bytes_as_chars(buf.subrange(1, 1 + c as int)),
                    fuel,
                );
            }
        } else {
            if buf.len() >= 2 {
                let ptr = (c as int % 64) * 256 + buf[1] as int;
                if ptr < msg.len() && fuel > 0 {
                    lemma_parse_name_consumed(msg, msg.skip(ptr), Seq::empty(), (fuel - 1) as nat);
                }
            }
        }
    }
}

/// A pointer whose 14-bit offset lies at or past the end of the message
/// is rejected as `PointerOutOfBounds`, whatever else the buffers hold.
pub proof fn lemma_pointer_out_of_bounds(msg: Seq<u8>, buf: Seq<u8>, acc: Seq<char>, fuel: nat)
    requires
        buf.len() >= 2,
        buf[0] > 63,
        (buf[0] as int % 64) * 256 + buf[1] as int >= msg.len(),
    ensures
        spec_parse_name(msg, buf, acc, fuel) == Err::<(Seq<char>, int), DnsError>(
            DnsError::PointerOutOfBounds,
        ),
{
}

/// A chain of pointers that only ever reference each other revisits its
/// offsets for as long as jumps remain, so a decode entering it at any
/// member is reported as `CompressionLoopDetected` for every fuel value
/// — and still terminates. `ptrs` is the chain: every member holds a
/// pointer whose offset is again a member.
pub proof fn lemma_pointer_cycle_loops(msg: Seq<u8>, ptrs: Set<int>, p: int, acc: Seq<char>, fuel: nat)
    requires
        ptrs.contains(p),
        forall|q: int| #[trigger]
            ptrs.contains(q) ==> 0 <= q && q + 2 <= msg.len() && msg[q] > 63 && ptrs.contains(
                (msg[q] as int % 64) * 256 + msg[q + 1] as int,
            ),
    ensures
        spec_parse_name(msg, msg.skip(p), acc, fuel) == Err::<(Seq<char>, int), DnsError>(
            DnsError::CompressionLoopDetected,
        ),
    decreases fuel,
{
    let buf = msg.skip(p);
    let target = (msg[p] as int % 64) * 256 + msg[p + 1] as int;
    assert(buf.len() == msg.len() - p);
    assert(buf[0] == msg[p]);
    assert(buf[1] == msg[p + 1]);
    assert(ptrs.contains(target));
    if fuel > 0 {
        lemma_pointer_cycle_loops(msg, ptrs, target, Seq::empty(), (fuel - 1) as nat);
    }
}

/// A pointer that references its own offset is the tightest such chain.
pub proof fn lemma_self_pointer_loops(msg: Seq<u8>, p: int, acc: Seq<char>, fuel: nat)
    requires
        0 <= p,
        p + 2 <= msg.len(),
        msg[p] > 63,
        (msg[p] as int % 64) * 256 + msg[p + 1] as int == p,
    ensures
        spec_parse_name(msg, msg.skip(p), acc, fuel) == Err::<(Seq<char>, int), DnsError>(
            DnsError::CompressionLoopDetected,
        ),
{
    lemma_pointer_cycle_loops(msg, set![p], p, acc, fuel);
}

/// The recursion behind `parse_from_buffer`: one call per label or
/// pointer, with `fuel` bounding the pointer jumps still allowed.
fn parse_name_rec(msg: &[u8], buf: &[u8], acc: String, fuel: usize) -> (r: Result<
    (String, usize),
    DnsError,
>)
    ensures
        ({
            let s = spec_parse_name(msg@, buf@, acc@, fuel as nat);
            match r {
                Ok((name, n)) => s == Ok::<(Seq<char>, int), DnsError>((name@, n as int)),
                Err(e) => s == Err::<(Seq<char>, int), DnsError>(e),
            }
        }),
    decreases fuel, buf@.len(),
{
    if buf.len() == 0 {
        return Err(DnsError::MalformedLabelSequence);
    }
    let c = buf[0];
    let mut a = acc;
    if !a.as_str().is_empty() {
        push_char(&mut a, '.');
    }
    if c == 0 {
        Ok((a, 1))
    } else if c <= 63 {
        let clen = c as usize;
        if buf.len() < 1 + clen {
            return Err(DnsError::MalformedLabelSequence);
        }
        push_bytes_as_chars(&mut a, buf, 1, 1 + clen);
        let sub = slice_subrange(buf, 1 + clen, buf.len());
        proof {
            assert(sub@ =~= buf@.skip(1 + c as int));
            lemma_parse_name_consumed(msg@, sub@, a@, fuel as nat);
        }
        match parse_name_rec(msg, sub, a, fuel) {
            Ok((name, n)) => Ok((name, n + 1 + clen)),
            Err(e) => Err(e),
        }
    } else {
        if buf.len() < 2 {
            return Err(DnsError::InsufficientBuffer);
        }
        let ptr = ((c % 64) as usize) * 256 + (buf[1] as usize);
        if ptr >= msg.len() {
            return Err(DnsError::PointerOutOfBounds);
        }
        if fuel == 0 {
            return Err(DnsError::CompressionLoopDetected);
        }
        let sub = slice_subrange(msg, ptr, msg.len());
        proof {
            assert(sub@ =~= msg@.skip(ptr as int));
        }
        match parse_name_rec(msg, sub, String::new(), fuel - 1) {
            Ok((name, _n)) => {
                a.append(name.as_str());
                Ok((a, 2))
            },
            Err(e) => Err(e),
        }
    }
}

/// A read-only view of the complete message buffer, against which
/// compression pointers are resolved: they encode absolute offsets,
/// wherever in the message the referencing field sits.
#[derive(Clone, Copy, Debug)]
pub struct DnsNameExtractor<'a> {
    pub bytes: &'a [u8],
}

impl<'a> DnsNameExtractor<'a> {
    /// Decodes the domain name at the front of `buf` — a sequence of
    /// labels ending in a zero byte, a pointer, or labels ending with a
    /// pointer — resolving pointers against the full message, and reports
    /// the bytes consumed from `buf` itself.
    pub fn parse_from_buffer(&self, buf: &[u8]) -> (r: Result<(String, usize), DnsError>)
        ensures
            ({
                let s = spec_parse_from(self.bytes@, buf@);
                match r {
                    Ok((name, n)) => s == Ok::<(Seq<char>, int), DnsError>((name@, n as int)),
                    Err(e) => s == Err::<(Seq<char>, int), DnsError>(e),
                }
            }),
    {
        parse_name_rec(self.bytes, buf, String::new(), self.bytes.len())
    }
}

} // verus!

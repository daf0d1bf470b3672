//! Big-endian field access shared by every codec, together with the few
//! string operations the decoders need that vstd leaves unspecified.

use vstd::prelude::*;

verus! {

/// Each byte read as the character with that code, the way the decoders
/// turn label bytes into text.
pub open spec fn spec_bytes_as_chars(s: Seq<u8>) -> Seq<char> {
    s.map_values(|b: u8| b as char)
}

/// The 16-bit value written big-endian as the bytes `hi`, `lo`.
pub open spec fn spec_be16(hi: u8, lo: u8) -> u16 {
    (hi as int * 256 + lo as int) as u16
}

/// The 32-bit value written big-endian as the bytes `b0` .. `b3`.
pub open spec fn spec_be32(b0: u8, b1: u8, b2: u8, b3: u8) -> u32 {
    (b0 as int * 0x1000000 + b1 as int * 0x10000 + b2 as int * 256 + b3 as int) as u32
}

/// The high byte of `x` written big-endian.
pub open spec fn spec_hi(x: u16) -> u8 {
    (x as int / 256) as u8
}

/// The low byte of `x` written big-endian.
pub open spec fn spec_lo(x: u16) -> u8 {
    (x as int % 256) as u8
}

/// The two bytes of `x` in big-endian order.
pub open spec fn spec_u16_bytes(x: u16) -> Seq<u8> {
    seq![spec_hi(x), spec_lo(x)]
}

/// Reassembling a 16-bit value from its own big-endian bytes gives it back.
pub proof fn lemma_be16_of_bytes(x: u16)
    ensures
        spec_be16(spec_hi(x), spec_lo(x)) == x,
{
    vstd::arithmetic::div_mod::lemma_fundamental_div_mod(x as int, 256);
}

/// Reads the 16-bit big-endian field at `off`.
pub(crate) fn read_u16_be(buf: &[u8], off: usize) -> (x: u16)
    requires
        off + 2 <= buf@.len(),
    ensures
        x == spec_be16(buf@[off as int], buf@[off as int + 1]),
{
    let hi = buf[off];
    let lo = buf[off + 1];
    (hi as u16) * 256 + (lo as u16)
}

/// Reads the 32-bit big-endian field at `off`.
pub(crate) fn read_u32_be(buf: &[u8], off: usize) -> (x: u32)
    requires
        off + 4 <= buf@.len(),
    ensures
        x == spec_be32(
            buf@[off as int],
            buf@[off as int + 1],
            buf@[off as int + 2],
            buf@[off as int + 3],
        ),
{
    let b0 = buf[off];
    let b1 = buf[off + 1];
    let b2 = buf[off + 2];
    let b3 = buf[off + 3];
    (b0 as u32) * 0x1000000 + (b1 as u32) * 0x10000 + (b2 as u32) * 256 + (b3 as u32)
}

/// Appends the two big-endian bytes of `x`.
pub(crate) fn push_u16_be(buf: &mut Vec<u8>, x: u16)
    ensures
        final(buf)@ == old(buf)@ + spec_u16_bytes(x),
{
    let ghost orig = buf@;
    buf.push((x / 256) as u8);
    buf.push((x % 256) as u8);
    assert(buf@ =~= orig + spec_u16_bytes(x));
}

/// Relies on String::push: appends exactly the one character `c`.
#[verifier::external_body]
pub(crate) fn push_char(s: &mut String, c: char)
    ensures
        final(s)@ == old(s)@.push(c),
{
    s.push(c);
}

/// Appends the bytes `buf[from..to]` to `s`, each as the character with
/// that code.
pub(crate) fn push_bytes_as_chars(s: &mut String, buf: &[u8], from: usize, to: usize)
    requires
        from <= to <= buf@.len(),
    ensures
        final(s)@ == old(s)@ + spec_bytes_as_chars(buf@.subrange(from as int, to as int)),
{
    let ghost base = s@;
    let mut i: usize = from;
    while i < to
        invariant
            from <= i <= to <= buf@.len(),
            s@ == base + spec_bytes_as_chars(buf@.subrange(from as int, i as int)),
        decreases to - i,
    {
        let ch = buf[i];
        push_char(s, ch as char);
        i = i + 1;
        proof {
            assert(buf@.subrange(from as int, i as int) =~= buf@.subrange(
                from as int,
                i - 1,
            ).push(buf@[i - 1]));
            assert(s@ =~= base + spec_bytes_as_chars(buf@.subrange(from as int, i as int)));
        }
    }
    assert(s@ =~= base + spec_bytes_as_chars(buf@.subrange(from as int, to as int)));
}

/// Relies on str's PartialEq: strings are equal exactly when their
/// character sequences are.
#[verifier::external_body]
pub(crate) fn str_eq(a: &str, b: &str) -> (r: bool)
    ensures
        r == (a@ == b@),
{
    a == b
}

} // verus!

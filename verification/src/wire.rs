//! Big-endian integers on the wire.
use vstd::prelude::*;

verus! {

/// The two bytes of `v`, most significant first.
pub open spec fn be16(v: u16) -> Seq<u8> {
    seq![(v / 0x100) as u8, (v % 0x100) as u8]
}

/// The four bytes of `v`, most significant first.
pub open spec fn be32(v: u32) -> Seq<u8> {
    seq![
        (v / 0x100_0000) as u8,
        ((v / 0x1_0000) % 0x100) as u8,
        ((v / 0x100) % 0x100) as u8,
        (v % 0x100) as u8,
    ]
}

/// The 16-bit value whose big-endian bytes stand at `b[at]` and `b[at + 1]`.
pub open spec fn u16_at(b: Seq<u8>, at: int) -> u16 {
    (b[at] as int * 0x100 + b[at + 1] as int) as u16
}

/// The 32-bit value whose big-endian bytes stand at `b[at]` to `b[at + 3]`.
pub open spec fn u32_at(b: Seq<u8>, at: int) -> u32 {
    (b[at] as int * 0x100_0000 + b[at + 1] as int * 0x1_0000 + b[at + 2] as int * 0x100 + b[at
        + 3] as int) as u32
}

/// Appends the big-endian bytes of `v` to `out`.
pub fn put_u16(out: &mut Vec<u8>, v: u16)
    ensures
        final(out)@ == old(out)@ + be16(v),
{
    out.push((v / 0x100) as u8);
    out.push((v % 0x100) as u8);
    assert(out@ =~= old(out)@ + be16(v));
}

/// Appends the big-endian bytes of `v` to `out`.
pub fn put_u32(out: &mut Vec<u8>, v: u32)
    ensures
        final(out)@ == old(out)@ + be32(v),
{
    out.push((v / 0x100_0000) as u8);
    out.push(((v / 0x1_0000) % 0x100) as u8);
    out.push(((v / 0x100) % 0x100) as u8);
    out.push((v % 0x100) as u8);
    assert(out@ =~= old(out)@ + be32(v));
}

/// Reads the big-endian 16-bit value at `at`.
pub fn get_u16(b: &[u8], at: usize) -> (v: u16)
    requires
        at + 2 <= b@.len(),
    ensures
        v == u16_at(b@, at as int),
{
    let hi: u16 = b[at] as u16;
    let lo: u16 = b[at + 1] as u16;
    hi * 0x100 + lo
}

/// Reads the big-endian 32-bit value at `at`.
pub fn get_u32(b: &[u8], at: usize) -> (v: u32)
    requires
        at + 4 <= b@.len(),
    ensures
        v == u32_at(b@, at as int),
{
    let b0: u32 = b[at] as u32;
    let b1: u32 = b[at + 1] as u32;
    let b2: u32 = b[at + 2] as u32;
    let b3: u32 = b[at + 3] as u32;
    b0 * 0x100_0000 + b1 * 0x1_0000 + b2 * 0x100 + b3
}

/// Reading back what was written yields the value written, wherever in a byte
/// string it stands.
pub proof fn lemma_u16_round_trip(before: Seq<u8>, v: u16, after: Seq<u8>)
    ensures
        u16_at(before + be16(v) + after, before.len() as int) == v,
{
    let all = before + be16(v) + after;
    let at = before.len() as int;
    assert(all[at] == be16(v)[0]);
    assert(all[at + 1] == be16(v)[1]);
}

/// Reading back what was written yields the value written, wherever in a byte
/// string it stands.
pub proof fn lemma_u32_round_trip(before: Seq<u8>, v: u32, after: Seq<u8>)
    ensures
        u32_at(before + be32(v) + after, before.len() as int) == v,
{
    let all = before + be32(v) + after;
    let at = before.len() as int;
    assert(all[at] == be32(v)[0]);
    assert(all[at + 1] == be32(v)[1]);
    assert(all[at + 2] == be32(v)[2]);
    assert(all[at + 3] == be32(v)[3]);
}

} // verus!

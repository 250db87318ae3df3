//! Little-endian integer framing shared by the byte codecs.

use vstd::prelude::*;
use vstd::arithmetic::div_mod::lemma_fundamental_div_mod_converse;

verus! {

/// The four little-endian bytes of `w`.
pub open spec fn le32(w: u32) -> Seq<u8> {
    seq![
        (w % 256) as u8,
        ((w / 256) % 256) as u8,
        ((w / 65536) % 256) as u8,
        (w / 16777216) as u8,
    ]
}

/// The `u32` whose little-endian bytes are `b[o..o + 4]`.
pub open spec fn le32_at(b: Seq<u8>, o: int) -> u32 {
    (b[o] + 256 * b[o + 1] + 65536 * b[o + 2] + 16777216 * b[o + 3]) as u32
}

/// The value is recovered from its four bytes.
pub proof fn lemma_le32_round_trip(w: u32)
    ensures
        le32_at(le32(w), 0) == w,
{
    let b0 = w % 256;
    let q0 = w / 256;
    let b1 = q0 % 256;
    let q1 = q0 / 256;
    let b2 = q1 % 256;
    let b3 = q1 / 256;
    lemma_fundamental_div_mod_converse(w as int, 256, q0 as int, b0 as int);
    lemma_fundamental_div_mod_converse(q0 as int, 256, q1 as int, b1 as int);
    lemma_fundamental_div_mod_converse(q1 as int, 256, b3 as int, b2 as int);
    lemma_fundamental_div_mod_converse(w as int, 65536, q1 as int, b0 + 256 * b1);
    lemma_fundamental_div_mod_converse(w as int, 16777216, b3 as int, b0 + 256 * b1 + 65536 * b2);
}

/// Writes the little-endian bytes of `w`.
pub fn push_le32(out: &mut Vec<u8>, w: u32)
    ensures
        final(out)@ == old(out)@ + le32(w),
{
    out.push((w % 256) as u8);
    out.push(((w / 256) % 256) as u8);
    out.push(((w / 65536) % 256) as u8);
    out.push((w / 16777216) as u8);
    assert(final(out)@ =~= old(out)@ + le32(w));
}

/// Reads the little-endian `u32` at `b[o..o + 4]`.
pub fn read_le32(b: &[u8], o: usize) -> (w: u32)
    requires
        o + 4 <= b@.len(),
    ensures
        w == le32_at(b@, o as int),
{
    (b[o] as u32) + 256 * (b[o + 1] as u32) + 65536 * (b[o + 2] as u32) + 16777216 * (b[o + 3] as u32)
}

} // verus!

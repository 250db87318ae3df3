//! 16-bit little-endian PCM framing, the wire format of the agent audio.

use vstd::prelude::*;
use vstd::arithmetic::div_mod::lemma_fundamental_div_mod_converse;

verus! {

/// The two's-complement 16-bit pattern of `v`.
pub open spec fn pattern16(v: i16) -> int {
    if v < 0 {
        v + 65536
    } else {
        v as int
    }
}

/// The sample whose little-endian bytes are `lo`, `hi`.
pub open spec fn sample_of(lo: u8, hi: u8) -> i16 {
    let u = lo + 256 * hi;
    if u >= 32768 {
        (u - 65536) as i16
    } else {
        u as i16
    }
}

/// The little-endian bytes of each sample in turn.
pub open spec fn pcm16_bytes(samples: Seq<i16>) -> Seq<u8>
    decreases samples.len(),
{
    if samples.len() == 0 {
        Seq::empty()
    } else {
        pcm16_bytes(samples.drop_last()) + seq![
            (pattern16(samples.last()) % 256) as u8,
            (pattern16(samples.last()) / 256) as u8,
        ]
    }
}

/// The samples carried by `bytes`, two bytes each; a trailing odd byte is
/// ignored.
pub open spec fn pcm16_samples(bytes: Seq<u8>) -> Seq<i16> {
    Seq::new(bytes.len() / 2, |i: int| sample_of(bytes[2 * i], bytes[2 * i + 1]))
}

/// Writes each sample as two little-endian bytes.
pub fn pcm16_encode(samples: &[i16]) -> (out: Vec<u8>)
    ensures
        out@ == pcm16_bytes(samples@),
{
    let mut out: Vec<u8> = Vec::new();
    let n = samples.len();
    let mut i: usize = 0;
    while i < n
        invariant
            n == samples@.len(),
            i <= n,
            out@ == pcm16_bytes(samples@.take(i as int)),
        decreases n - i,
    {
        let v = samples[i];
        let u: u32 = if v < 0 { (v as i32 + 65536) as u32 } else { v as u32 };
        out.push((u % 256) as u8);
        out.push((u / 256) as u8);
        proof {
            assert(samples@.take(i + 1).drop_last() =~= samples@.take(i as int));
            assert(out@ =~= pcm16_bytes(samples@.take(i + 1)));
        }
        i = i + 1;
    }
    proof {
        assert(samples@.take(n as int) =~= samples@);
    }
    out
}

/// Reads consecutive little-endian sample pairs; a trailing odd byte is
/// ignored.
pub fn pcm16_decode(bytes: &[u8]) -> (out: Vec<i16>)
    ensures
        out@ == pcm16_samples(bytes@),
{
    let mut out: Vec<i16> = Vec::new();
    let blen = bytes.len();
    let pairs = blen / 2;
    let mut i: usize = 0;
    while i < pairs
        invariant
            blen == bytes@.len(),
            pairs == bytes@.len() / 2,
            i <= pairs,
            out@ == pcm16_samples(bytes@).take(i as int),
        decreases pairs - i,
    {
        let lo = bytes[2 * i];
        let hi = bytes[2 * i + 1];
        let u: u32 = (lo as u32) + 256 * (hi as u32);
        let v: i16 = if u >= 32768 { (u as i32 - 65536) as i16 } else { u as i16 };
        out.push(v);
        proof {
            assert(out@ =~= pcm16_samples(bytes@).take(i + 1));
        }
        i = i + 1;
    }
    proof {
        assert(out@ =~= pcm16_samples(bytes@));
    }
    out
}

proof fn lemma_pcm16_bytes_len(s: Seq<i16>)
    ensures
        pcm16_bytes(s).len() == 2 * s.len(),
    decreases s.len(),
{
    if s.len() > 0 {
        lemma_pcm16_bytes_len(s.drop_last());
    }
}

proof fn lemma_pcm16_bytes_at(s: Seq<i16>, i: int)
    requires
        0 <= i < s.len(),
    ensures
        sample_of(pcm16_bytes(s)[2 * i], pcm16_bytes(s)[2 * i + 1]) == s[i],
    decreases s.len(),
{
    lemma_pcm16_bytes_len(s.drop_last());
    if i == s.len() - 1 {
        let p = pattern16(s[i]);
        lemma_fundamental_div_mod_converse(p, 256, p / 256, p % 256);
    } else {
        lemma_pcm16_bytes_at(s.drop_last(), i);
    }
}

/// Round trip: decoding the bytes of some samples gives back the samples.
pub proof fn lemma_pcm16_round_trip(s: Seq<i16>)
    ensures
        pcm16_samples(pcm16_bytes(s)) == s,
{
    lemma_pcm16_bytes_len(s);
    assert forall|i: int| 0 <= i < s.len() implies pcm16_samples(pcm16_bytes(s))[i] == s[i] by {
        lemma_pcm16_bytes_at(s, i);
    }
    assert(pcm16_samples(pcm16_bytes(s)) =~= s);
}

/// Wire layout: sample `i` sits in bytes `2 i` (low) and `2 i + 1` (high),
/// whose little-endian value is the sample's 16-bit two's-complement
/// pattern; decoding reads each pair back the same way.
pub proof fn lemma_pcm16_layout(s: Seq<i16>, b: Seq<u8>)
    ensures
        pcm16_bytes(s).len() == 2 * s.len(),
        forall|i: int|
            0 <= i < s.len() ==> (pcm16_bytes(s)[2 * i] + 256 * pcm16_bytes(s)[2 * i + 1]) % 65536
                == (#[trigger] s[i] as int) % 65536,
        pcm16_samples(b).len() == b.len() / 2,
        forall|i: int|
            0 <= i < b.len() / 2 ==> (#[trigger] pcm16_samples(b)[i] as int) % 65536 == (b[2 * i] + 256
                * b[2 * i + 1]) % 65536,
{
    lemma_pcm16_bytes_len(s);
    assert forall|i: int| 0 <= i < s.len() implies (pcm16_bytes(s)[2 * i] + 256 * pcm16_bytes(
        s,
    )[2 * i + 1]) % 65536 == (#[trigger] s[i] as int) % 65536 by {
        lemma_pcm16_bytes_at(s, i);
        let lo = pcm16_bytes(s)[2 * i];
        let hi = pcm16_bytes(s)[2 * i + 1];
        let u = lo + 256 * hi;
        if u >= 32768 {
            assert((u - 65536) % 65536 == u % 65536);
        }
    }
    assert forall|i: int| 0 <= i < b.len() / 2 implies (#[trigger] pcm16_samples(b)[i] as int) % 65536
        == (b[2 * i] + 256 * b[2 * i + 1]) % 65536 by {
        let u = b[2 * i] + 256 * b[2 * i + 1];
        if u >= 32768 {
            assert((u - 65536) % 65536 == u % 65536);
        }
    }
}

} // verus!

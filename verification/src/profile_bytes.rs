//! Byte layout of a persisted speaker profile:
//! `[u32 dim][f32 * dim]`, all little-endian.
//!
//! The centroid values travel as the bit patterns of their `f32`s, so the
//! framing here is exact and independent of the arithmetic that made them.

use vstd::prelude::*;
use crate::le::{le32, le32_at, lemma_le32_round_trip, push_le32, read_le32};

verus! {

/// The little-endian bytes of each word in turn.
pub open spec fn words_le(ws: Seq<u32>) -> Seq<u8>
    decreases ws.len(),
{
    if ws.len() == 0 {
        Seq::empty()
    } else {
        words_le(ws.drop_last()) + le32(ws.last())
    }
}

/// The blob for a centroid of `ws.len()` words: the dimension (taken modulo
/// 2^32, as a `u32`) followed by the words.
pub open spec fn profile_blob(ws: Seq<u32>) -> Seq<u8> {
    le32((ws.len() % 4294967296) as u32) + words_le(ws)
}

/// What a blob decodes to: `None` unless it holds a 4-byte dimension `dim`
/// followed by exactly `dim` 4-byte words.
pub open spec fn parse_profile(b: Seq<u8>) -> Option<Seq<u32>> {
    if b.len() < 4 {
        None
    } else if b.len() != 4 + 4 * le32_at(b, 0) {
        None
    } else {
        Some(Seq::new(le32_at(b, 0) as nat, |i: int| le32_at(b, 4 + 4 * i)))
    }
}

proof fn lemma_words_le_len(ws: Seq<u32>)
    ensures
        words_le(ws).len() == 4 * ws.len(),
    decreases ws.len(),
{
    if ws.len() > 0 {
        lemma_words_le_len(ws.drop_last());
    }
}

proof fn lemma_words_le_at(ws: Seq<u32>, i: int)
    requires
        0 <= i < ws.len(),
    ensures
        le32_at(words_le(ws), 4 * i) == ws[i],
    decreases ws.len(),
{
    lemma_words_le_len(ws.drop_last());
    let pre = words_le(ws.drop_last());
    let w = ws.last();
    if i == ws.len() - 1 {
        lemma_le32_round_trip(w);
        assert(words_le(ws).subrange(4 * i, 4 * i + 4) =~= le32(w));
    } else {
        lemma_words_le_at(ws.drop_last(), i);
        assert forall|j: int| 4 * i <= j < 4 * i + 4 implies words_le(ws)[j] == pre[j] by {}
    }
}

/// Serialises centroid words (the bit patterns of the `f32` values) as
/// `[u32 dim][u32 * dim]` little-endian.
pub fn encode_profile(words: &[u32]) -> (out: Vec<u8>)
    ensures
        out@ == profile_blob(words@),
        out@.len() == 4 + 4 * words@.len(),
        le32_at(out@, 0) == words@.len() % 4294967296,
        forall|i: int| 0 <= i < words@.len() ==> le32_at(out@, 4 + 4 * i) == #[trigger] words@[i],
{
    let mut out: Vec<u8> = Vec::new();
    let dim = words.len();
    let dim32: u32 = ((dim as u64) % 4294967296) as u32;
    push_le32(&mut out, dim32);
    let mut i: usize = 0;
    while i < dim
        invariant
            dim == words@.len(),
            i <= dim,
            out@ == le32(dim32) + words_le(words@.take(i as int)),
            dim32 == (words@.len() % 4294967296) as u32,
        decreases dim - i,
    {
        push_le32(&mut out, words[i]);
        proof {
            assert(words@.take(i + 1).drop_last() =~= words@.take(i as int));
            assert(out@ =~= le32(dim32) + words_le(words@.take(i + 1)));
        }
        i = i + 1;
    }
    proof {
        assert(words@.take(dim as int) =~= words@);
        lemma_profile_layout(words@);
    }
    out
}

/// Restores centroid words from a blob made by [`encode_profile`]; `None`
/// when the length does not match the stored dimension.
pub fn decode_profile(bytes: &[u8]) -> (out: Option<Vec<u32>>)
    ensures
        match out {
            Some(ws) => parse_profile(bytes@) == Some(ws@),
            None => parse_profile(bytes@) is None,
        },
        out matches Some(ws) ==> ws@.len() == le32_at(bytes@, 0) && bytes@.len() == 4 + 4
            * ws@.len() && forall|i: int| 0 <= i < ws@.len() ==> #[trigger] ws@[i] == le32_at(
            bytes@,
            4 + 4 * i,
        ),
        out is None <==> (bytes@.len() < 4 || bytes@.len() != 4 + 4 * le32_at(bytes@, 0)),
{
    if bytes.len() < 4 {
        return None;
    }
    let dim = read_le32(bytes, 0);
    if (bytes.len() as u64) != 4 + 4 * (dim as u64) {
        return None;
    }
    let blen = bytes.len();
    let mut ws: Vec<u32> = Vec::new();
    let mut i: u32 = 0;
    while i < dim
        invariant
            blen == bytes@.len(),
            bytes@.len() == 4 + 4 * dim,
            dim == le32_at(bytes@, 0),
            i <= dim,
            ws@.len() == i,
            forall|j: int| 0 <= j < i ==> ws@[j] == le32_at(bytes@, 4 + 4 * j),
        decreases dim - i,
    {
        let o: usize = 4 + 4 * (i as usize);
        ws.push(read_le32(bytes, o));
        i = i + 1;
    }
    proof {
        assert(ws@ =~= Seq::new(dim as nat, |j: int| le32_at(bytes@, 4 + 4 * j)));
    }
    Some(ws)
}

/// Round trip: a blob made from fewer than 2^32 words decodes to exactly
/// those words.
pub proof fn lemma_profile_round_trip(ws: Seq<u32>)
    requires
        ws.len() < 4294967296,
    ensures
        parse_profile(profile_blob(ws)) == Some(ws),
{
    let b = profile_blob(ws);
    let d = ws.len() as u32;
    lemma_le32_round_trip(d);
    lemma_words_le_len(ws);
    assert(b.subrange(0, 4) =~= le32(d));
    assert(le32_at(b, 0) == le32_at(le32(d), 0));
    assert forall|i: int| 0 <= i < ws.len() implies le32_at(b, 4 + 4 * i) == ws[i] by {
        lemma_words_le_at(ws, i);
        assert(b.subrange(4 + 4 * i, 8 + 4 * i) =~= words_le(ws).subrange(4 * i, 4 * i + 4));
    }
    assert(Seq::new(le32_at(b, 0) as nat, |i: int| le32_at(b, 4 + 4 * i)) =~= ws);
}

/// Layout of a blob: the dimension (modulo 2^32) in the first four bytes,
/// then word `i` at byte offset `4 + 4 i`, in order, and nothing more.
pub proof fn lemma_profile_layout(ws: Seq<u32>)
    ensures
        profile_blob(ws).len() == 4 + 4 * ws.len(),
        le32_at(profile_blob(ws), 0) == ws.len() % 4294967296,
        forall|i: int| 0 <= i < ws.len() ==> le32_at(profile_blob(ws), 4 + 4 * i) == #[trigger] ws[i],
{
    let b = profile_blob(ws);
    let d = (ws.len() % 4294967296) as u32;
    lemma_le32_round_trip(d);
    lemma_words_le_len(ws);
    assert(b.subrange(0, 4) =~= le32(d));
    assert(le32_at(b, 0) == le32_at(le32(d), 0));
    assert forall|i: int| 0 <= i < ws.len() implies le32_at(b, 4 + 4 * i) == #[trigger] ws[i] by {
        lemma_words_le_at(ws, i);
        assert(b.subrange(4 + 4 * i, 8 + 4 * i) =~= words_le(ws).subrange(4 * i, 4 * i + 4));
    }
}

/// What a decoded blob holds: as many words as its first four bytes say,
/// exactly filling it, word `i` read at byte offset `4 + 4 i`.
pub proof fn lemma_parse_layout(b: Seq<u8>)
    ensures
        parse_profile(b) matches Some(ws) ==> ws.len() == le32_at(b, 0) && b.len() == 4 + 4
            * ws.len() && forall|i: int| 0 <= i < ws.len() ==> #[trigger] ws[i] == le32_at(b, 4 + 4 * i),
        parse_profile(b) is None <==> (b.len() < 4 || b.len() != 4 + 4 * le32_at(b, 0)),
{
}

} // verus!

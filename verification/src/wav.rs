//! The RIFF/WAVE container: finding the format and the sample data of a
//! WAV file, and the header of the 32-bit float mono files the tool writes.
//!
//! A file is `RIFF <size> WAVE` followed by chunks `<id> <size> <body>`,
//! each body padded to an even length. The `fmt ` chunk (at least 16 bytes)
//! gives the encoding, channel count, sample rate and bit depth; the first
//! `data` chunk holds the samples.

use vstd::prelude::*;
use vstd::string::StringExecFns;
use crate::le::{le32, le32_at, lemma_le32_round_trip, push_le32, read_le32};
use crate::text::{decimal, push_decimal};

verus! {

/// The `u16` whose little-endian bytes are `b[o..o + 2]`.
pub open spec fn le16_at(b: Seq<u8>, o: int) -> u16 {
    (b[o] + 256 * b[o + 1]) as u16
}

/// The two little-endian bytes of `w`.
pub open spec fn le16(w: u16) -> Seq<u8> {
    seq![(w % 256) as u8, (w / 256) as u8]
}

/// Whether `b[o..o + 4]` spells the four ASCII characters `id`.
pub open spec fn tag_at(b: Seq<u8>, o: int, id: Seq<u8>) -> bool {
    b.subrange(o, o + 4) == id
}

pub open spec fn riff_tag() -> Seq<u8> {
    seq![82u8, 73u8, 70u8, 70u8]
}

pub open spec fn wave_tag() -> Seq<u8> {
    seq![87u8, 65u8, 86u8, 69u8]
}

pub open spec fn fmt_tag() -> Seq<u8> {
    seq![102u8, 109u8, 116u8, 32u8]
}

pub open spec fn data_tag() -> Seq<u8> {
    seq![100u8, 97u8, 116u8, 97u8]
}

/// What the `fmt ` chunk says.
#[derive(Clone, Copy, Debug, PartialEq, Eq)]
pub struct WavFormat {
    /// 1 for integer PCM, 3 for IEEE float.
    pub encoding: u16,
    pub channels: u16,
    pub sample_rate: u32,
    pub bits: u16,
}

/// Where the samples are and how to read them.
#[derive(Clone, Copy, Debug, PartialEq, Eq)]
pub struct WavData {
    pub format: WavFormat,
    /// Samples per frame, at least one.
    pub frame_channels: usize,
    /// The data chunk's body is `bytes[start..end]` (cut at the end of the
    /// file when the chunk claims more).
    pub start: usize,
    pub end: usize,
}

/// Why a file could not be read.
#[derive(Clone, Copy, Debug, PartialEq, Eq)]
pub enum WavError {
    /// It does not start with `RIFF ... WAVE`.
    NotRiff,
    /// The data chunk came before any format chunk.
    DataBeforeFmt,
    /// Neither 16-bit integer nor 32-bit float PCM.
    Unsupported { encoding: u16, bits: u16 },
    /// No data chunk was found.
    NoData,
}

impl WavError {
    /// The message for a file named `path`.
    pub fn message(&self, path: &str) -> (m: String)
        ensures
            m@ == path@ + match *self {
                WavError::NotRiff => ": not a RIFF/WAVE file"@,
                WavError::DataBeforeFmt => ": data before fmt"@,
                WavError::Unsupported { encoding, bits } => ": unsupported WAV encoding (format "@
                    + decimal(encoding as nat) + ", "@ + decimal(bits as nat) + " bits)"@,
                WavError::NoData => ": no data chunk"@,
            },
    {
        let mut m = String::from_str(path);
        match *self {
            WavError::NotRiff => m.append(": not a RIFF/WAVE file"),
            WavError::DataBeforeFmt => m.append(": data before fmt"),
            WavError::Unsupported { encoding, bits } => {
                m.append(": unsupported WAV encoding (format ");
                push_decimal(&mut m, encoding as u32);
                m.append(", ");
                push_decimal(&mut m, bits as u32);
                m.append(" bits)");
            },
            WavError::NoData => m.append(": no data chunk"),
        }
        m
    }
}

/// The format read from a `fmt ` chunk whose body starts at `body`.
pub open spec fn format_at(b: Seq<u8>, body: int) -> WavFormat {
    WavFormat {
        encoding: le16_at(b, body),
        channels: le16_at(b, body + 2),
        sample_rate: le32_at(b, body + 4),
        bits: le16_at(b, body + 14),
    }
}

/// The encodings the tool reads: 16-bit integer and 32-bit float PCM.
pub open spec fn supported(f: WavFormat) -> bool {
    (f.encoding == 1 && f.bits == 16) || (f.encoding == 3 && f.bits == 32)
}

/// Walks the chunks from `pos`, with the format found so far.
pub open spec fn walk(b: Seq<u8>, pos: nat, fmt: Option<WavFormat>) -> Result<WavData, WavError>
    decreases b.len() - pos,
{
    if pos + 8 > b.len() {
        Err(WavError::NoData)
    } else {
        let size = le32_at(b, (pos + 4) as int) as nat;
        let body = pos + 8;
        let end = if body + size <= b.len() {
            body + size
        } else {
            b.len()
        };
        if tag_at(b, pos as int, data_tag()) {
            match fmt {
                None => Err(WavError::DataBeforeFmt),
                Some(f) => if supported(f) {
                    Ok(
                        WavData {
                            format: f,
                            frame_channels: if f.channels == 0 {
                                1
                            } else {
                                f.channels as usize
                            },
                            start: body as usize,
                            end: end as usize,
                        },
                    )
                } else {
                    Err(WavError::Unsupported { encoding: f.encoding, bits: f.bits })
                },
            }
        } else {
            let fmt2 = if tag_at(b, pos as int, fmt_tag()) && end - body >= 16 {
                Some(format_at(b, body as int))
            } else {
                fmt
            };
            let next = body + size + size % 2;
            if next >= b.len() {
                Err(WavError::NoData)
            } else {
                walk(b, next, fmt2)
            }
        }
    }
}

/// What a WAV file's bytes say.
pub open spec fn wav_spec(b: Seq<u8>) -> Result<WavData, WavError> {
    if b.len() < 12 || !tag_at(b, 0, riff_tag()) || !tag_at(b, 8, wave_tag()) {
        Err(WavError::NotRiff)
    } else {
        walk(b, 12, None)
    }
}

fn tag_is(b: &[u8], o: usize, t0: u8, t1: u8, t2: u8, t3: u8) -> (r: bool)
    requires
        o + 4 <= b@.len(),
    ensures
        r == (b@.subrange(o as int, o + 4) == seq![t0, t1, t2, t3]),
{
    let r = b[o] == t0 && b[o + 1] == t1 && b[o + 2] == t2 && b[o + 3] == t3;
    proof {
        if r {
            assert(b@.subrange(o as int, o + 4) =~= seq![t0, t1, t2, t3]);
        } else {
            if b@.subrange(o as int, o + 4) == seq![t0, t1, t2, t3] {
                assert(b@.subrange(o as int, o + 4)[0] == t0);
                assert(b@.subrange(o as int, o + 4)[1] == t1);
                assert(b@.subrange(o as int, o + 4)[2] == t2);
                assert(b@.subrange(o as int, o + 4)[3] == t3);
            }
        }
    }
    r
}

fn read_le16(b: &[u8], o: usize) -> (w: u16)
    requires
        o + 2 <= b@.len(),
    ensures
        w == le16_at(b@, o as int),
{
    (b[o] as u16) + 256 * (b[o + 1] as u16)
}

/// Finds the format and the sample data of a WAV file.
pub fn parse_wav(b: &[u8]) -> (r: Result<WavData, WavError>)
    ensures
        r == wav_spec(b@),
{
    let len = b.len();
    if len < 12 || !tag_is(b, 0, 82, 73, 70, 70) || !tag_is(b, 8, 87, 65, 86, 69) {
        return Err(WavError::NotRiff);
    }
    let mut pos: usize = 12;
    let mut fmt: Option<WavFormat> = None;
    while 8 <= len - pos
        invariant
            len == b@.len(),
            12 <= pos <= len,
            walk(b@, pos as nat, fmt) == wav_spec(b@),
        decreases len - pos,
    {
        let size = read_le32(b, pos + 4);
        let body = pos + 8;
        let rem = len - body;
        let end = if (size as u64) <= (rem as u64) {
            body + (size as usize)
        } else {
            len
        };
        let is_data = tag_is(b, pos, 100, 97, 116, 97);
        if is_data {
            return match fmt {
                None => Err(WavError::DataBeforeFmt),
                Some(f) => {
                    if (f.encoding == 1 && f.bits == 16) || (f.encoding == 3 && f.bits == 32) {
                        let ch: usize = if f.channels == 0 {
                            1
                        } else {
                            f.channels as usize
                        };
                        Ok(WavData { format: f, frame_channels: ch, start: body, end })
                    } else {
                        Err(WavError::Unsupported { encoding: f.encoding, bits: f.bits })
                    }
                },
            };
        }
        let is_fmt = tag_is(b, pos, 102, 109, 116, 32);
        if is_fmt && end - body >= 16 {
            fmt = Some(
                WavFormat {
                    encoding: read_le16(b, body),
                    channels: read_le16(b, body + 2),
                    sample_rate: read_le32(b, body + 4),
                    bits: read_le16(b, body + 14),
                },
            );
        }
        let pad: u64 = (size as u64) % 2;
        if (size as u64) + pad >= (rem as u64) {
            return Err(WavError::NoData);
        }
        pos = body + (size as usize) + (pad as usize);
    }
    Err(WavError::NoData)
}

/// The 44-byte header of a 32-bit float mono WAV file of `n_samples`
/// samples at `rate` Hz (sizes and byte rate wrap as the 32-bit header
/// fields do).
pub open spec fn float_mono_header(n_samples: nat, rate: u32) -> Seq<u8> {
    let data_len = ((n_samples * 4) % 0x1_0000_0000) as u32;
    riff_tag() + le32(((36 + data_len) % 0x1_0000_0000) as u32) + wave_tag() + fmt_tag() + le32(16)
        + le16(3) + le16(1) + le32(rate) + le32(((rate * 4) % 0x1_0000_0000) as u32) + le16(4)
        + le16(32) + data_tag() + le32(data_len)
}

fn push_le16(out: &mut Vec<u8>, w: u16)
    ensures
        final(out)@ == old(out)@ + le16(w),
{
    out.push((w % 256) as u8);
    out.push((w / 256) as u8);
    assert(final(out)@ =~= old(out)@ + le16(w));
}

fn push_tag(out: &mut Vec<u8>, t0: u8, t1: u8, t2: u8, t3: u8)
    ensures
        final(out)@ == old(out)@ + seq![t0, t1, t2, t3],
{
    out.push(t0);
    out.push(t1);
    out.push(t2);
    out.push(t3);
    assert(final(out)@ =~= old(out)@ + seq![t0, t1, t2, t3]);
}

/// The header of a 32-bit float mono WAV file; the samples' little-endian
/// bytes follow it.
pub fn float_mono_wav_header(n_samples: usize, rate: u32) -> (h: Vec<u8>)
    ensures
        h@ == float_mono_header(n_samples as nat, rate),
{
    let data_len: u32 = ((n_samples as u64 % 0x4000_0000) * 4) as u32;
    assert(data_len == (n_samples * 4) % 0x1_0000_0000) by (nonlinear_arith)
        requires
            data_len == (n_samples % 0x4000_0000) * 4,
    ;
    let riff_len: u32 = ((36 + data_len as u64) % 0x1_0000_0000) as u32;
    let byte_rate: u32 = ((rate as u64 * 4) % 0x1_0000_0000) as u32;
    let mut h: Vec<u8> = Vec::new();
    push_tag(&mut h, 82, 73, 70, 70);
    push_le32(&mut h, riff_len);
    push_tag(&mut h, 87, 65, 86, 69);
    push_tag(&mut h, 102, 109, 116, 32);
    push_le32(&mut h, 16);
    push_le16(&mut h, 3);
    push_le16(&mut h, 1);
    push_le32(&mut h, rate);
    push_le32(&mut h, byte_rate);
    push_le16(&mut h, 4);
    push_le16(&mut h, 32);
    push_tag(&mut h, 100, 97, 116, 97);
    push_le32(&mut h, data_len);
    assert(h@ =~= float_mono_header(n_samples as nat, rate));
    h
}

proof fn lemma_le32_within(pre: Seq<u8>, w: u32, post: Seq<u8>)
    ensures
        le32_at(pre + le32(w) + post, pre.len() as int) == w,
{
    lemma_le32_round_trip(w);
    let b = pre + le32(w) + post;
    let o = pre.len() as int;
    assert(b[o] == le32(w)[0] && b[o + 1] == le32(w)[1] && b[o + 2] == le32(w)[2] && b[o + 3] == le32(
        w,
    )[3]);
}

proof fn lemma_le16_within(pre: Seq<u8>, w: u16, post: Seq<u8>)
    ensures
        le16_at(pre + le16(w) + post, pre.len() as int) == w,
{
    let b = pre + le16(w) + post;
    let o = pre.len() as int;
    assert(b[o] == le16(w)[0] && b[o + 1] == le16(w)[1]);
}

proof fn lemma_tag_within(pre: Seq<u8>, t: Seq<u8>, post: Seq<u8>)
    requires
        t.len() == 4,
    ensures
        tag_at(pre + t + post, pre.len() as int, t),
{
    assert((pre + t + post).subrange(pre.len() as int, pre.len() as int + 4) =~= t);
}

proof fn lemma_header_fields(n: nat, rate: u32, d: Seq<u8>)
    requires
        d.len() == 4 * n,
        4 * n + 36 < 0x1_0000_0000,
    ensures
        ({
            let b = float_mono_header(n, rate) + d;
            &&& b.len() == 44 + 4 * n
            &&& tag_at(b, 0, riff_tag())
            &&& tag_at(b, 8, wave_tag())
            &&& tag_at(b, 12, fmt_tag())
            &&& !tag_at(b, 12, data_tag())
            &&& le32_at(b, 16) == 16
            &&& format_at(b, 20) == (WavFormat { encoding: 3, channels: 1, sample_rate: rate, bits: 32 })
            &&& tag_at(b, 36, data_tag())
            &&& le32_at(b, 40) == 4 * n
        }),
{
    let data_len = ((n * 4) % 0x1_0000_0000) as u32;
    let riff_len = ((36 + data_len) % 0x1_0000_0000) as u32;
    let byte_rate = ((rate * 4) % 0x1_0000_0000) as u32;
    let p1 = riff_tag() + le32(riff_len);
    let p2 = p1 + wave_tag();
    let p3 = p2 + fmt_tag();
    let p4 = p3 + le32(16);
    let p5 = p4 + le16(3);
    let p6 = p5 + le16(1);
    let p7 = p6 + le32(rate);
    let p8 = p7 + le32(byte_rate);
    let p9 = p8 + le16(4);
    let p10 = p9 + le16(32);
    let p11 = p10 + data_tag();
    let h = p11 + le32(data_len);
    assert(h == float_mono_header(n, rate));
    let b = h + d;
    assert(p11.len() == 40);
    assert(data_len == 4 * n);
    assert(tag_at(b, 0, riff_tag())) by {
        lemma_tag_within(Seq::empty(), riff_tag(), b.skip(4));
        assert(Seq::<u8>::empty() + riff_tag() + b.skip(4) =~= b);
    }
    assert(tag_at(b, 8, wave_tag())) by {
        lemma_tag_within(p1, wave_tag(), b.skip(12));
        assert(p1 + wave_tag() + b.skip(12) =~= b);
    }
    assert(tag_at(b, 12, fmt_tag())) by {
        lemma_tag_within(p2, fmt_tag(), b.skip(16));
        assert(p2 + fmt_tag() + b.skip(16) =~= b);
    }
    assert(!tag_at(b, 12, data_tag())) by {
        assert(b.subrange(12, 16)[0] != data_tag()[0]);
    }
    assert(le32_at(b, 16) == 16) by {
        lemma_le32_within(p3, 16, b.skip(20));
        assert(p3 + le32(16) + b.skip(20) =~= b);
    }
    assert(le16_at(b, 20) == 3) by {
        lemma_le16_within(p4, 3, b.skip(22));
        assert(p4 + le16(3) + b.skip(22) =~= b);
    }
    assert(le16_at(b, 22) == 1) by {
        lemma_le16_within(p5, 1, b.skip(24));
        assert(p5 + le16(1) + b.skip(24) =~= b);
    }
    assert(le32_at(b, 24) == rate) by {
        lemma_le32_within(p6, rate, b.skip(28));
        assert(p6 + le32(rate) + b.skip(28) =~= b);
    }
    assert(le16_at(b, 34) == 32) by {
        lemma_le16_within(p9, 32, b.skip(36));
        assert(p9 + le16(32) + b.skip(36) =~= b);
    }
    assert(tag_at(b, 36, data_tag())) by {
        lemma_tag_within(p10, data_tag(), b.skip(40));
        assert(p10 + data_tag() + b.skip(40) =~= b);
    }
    assert(le32_at(b, 40) == data_len) by {
        lemma_le32_within(p11, data_len, d);
    }
}

/// What the tool writes, it reads back: a float mono header followed by
/// the sample bytes is found to be 32-bit float, one channel, at the given
/// rate, with its samples right after the 44-byte header.
#[verifier::spinoff_prover]
pub proof fn lemma_written_header_parses(n: nat, rate: u32, d: Seq<u8>)
    requires
        d.len() == 4 * n,
        4 * n + 36 < 0x1_0000_0000,
    ensures
        wav_spec(float_mono_header(n, rate) + d) == Ok::<WavData, WavError>(
            WavData {
                format: WavFormat { encoding: 3, channels: 1, sample_rate: rate, bits: 32 },
                frame_channels: 1,
                start: 44,
                end: (44 + 4 * n) as usize,
            },
        ),
{
    lemma_header_fields(n, rate, d);
    let b = float_mono_header(n, rate) + d;
    let f = WavFormat { encoding: 3, channels: 1, sample_rate: rate, bits: 32 };
    assert(walk(b, 36, Some(f)) == Ok::<WavData, WavError>(
        WavData { format: f, frame_channels: 1, start: 44, end: (44 + 4 * n) as usize },
    ));
    assert(walk(b, 12, None) == walk(b, 36, Some(f)));
}

} // verus!

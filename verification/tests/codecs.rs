use voicecore::base64::{base64_decode, base64_encode};
use voicecore::pcm::{pcm16_decode, pcm16_encode};
use voicecore::profile_bytes::{decode_profile, encode_profile};
use voicecore::wav::{float_mono_wav_header, parse_wav, WavError};

#[test]
fn base64_round_trips() {
    for data in [&b""[..], b"f", b"fo", b"foo", b"foob", b"fooba", b"foobar"] {
        let enc = base64_encode(data);
        assert_eq!(base64_decode(&enc).unwrap(), data);
    }
}

#[test]
fn base64_matches_standard_vectors() {
    assert_eq!(base64_encode(b""), "");
    assert_eq!(base64_encode(b"f"), "Zg==");
    assert_eq!(base64_encode(b"fo"), "Zm8=");
    assert_eq!(base64_encode(b"foo"), "Zm9v");
    assert_eq!(base64_encode(b"foobar"), "Zm9vYmFy");
    assert_eq!(base64_encode(&[0xfb, 0xff, 0xbf]), "+/+/");
}

#[test]
fn base64_decode_skips_padding_and_whitespace() {
    assert_eq!(base64_decode("Zm9v\r\nYmFy").unwrap(), b"foobar");
    assert_eq!(base64_decode(" Zg = = ").unwrap(), b"f");
    assert_eq!(base64_decode("Zm8").unwrap(), b"fo");
}

#[test]
fn base64_decode_rejects_foreign_bytes() {
    assert!(base64_decode("Zm9v!").is_none());
    assert!(base64_decode("Zm9vé").is_none());
    assert!(base64_decode("Zm\u{b}9v").is_none());
}

#[test]
fn pcm16_round_trips_samples() {
    let samples: Vec<i16> = vec![0, 1, -1, 16383, -16384, i16::MAX, i16::MIN];
    let bytes = pcm16_encode(&samples);
    assert_eq!(bytes.len(), 2 * samples.len());
    assert_eq!(&bytes[..6], &[0, 0, 1, 0, 0xff, 0xff]);
    assert_eq!(pcm16_decode(&bytes), samples);
}

#[test]
fn pcm16_decode_ignores_trailing_odd_byte() {
    assert_eq!(pcm16_decode(&[0x34, 0x12, 0x00, 0x80, 0x07]), vec![0x1234, i16::MIN]);
}

#[test]
fn profile_blob_round_trips_centroid_bits() {
    let centroid: Vec<f32> = vec![0.5, -0.25, 0.125, 1.0e-3];
    let words: Vec<u32> = centroid.iter().map(|v| v.to_bits()).collect();
    let blob = encode_profile(&words);
    assert_eq!(blob.len(), 4 + 4 * centroid.len());
    assert_eq!(&blob[..4], &[4, 0, 0, 0]);
    let back: Vec<f32> = decode_profile(&blob).unwrap().into_iter().map(f32::from_bits).collect();
    assert_eq!(back, centroid);
}

#[test]
fn from_bytes_rejects_garbage() {
    assert!(decode_profile(&[1, 2, 3]).is_none());
}

#[test]
fn profile_blob_length_must_match_dimension() {
    assert!(decode_profile(&[2, 0, 0, 0, 1, 2, 3, 4]).is_none());
    assert_eq!(decode_profile(&[0, 0, 0, 0]).unwrap(), Vec::<u32>::new());
    assert_eq!(decode_profile(&[1, 0, 0, 0, 0x78, 0x56, 0x34, 0x12]).unwrap(), vec![0x1234_5678]);
}

fn chunk(id: &[u8], body: &[u8]) -> Vec<u8> {
    let mut c = id.to_vec();
    c.extend_from_slice(&(body.len() as u32).to_le_bytes());
    c.extend_from_slice(body);
    if body.len() % 2 == 1 {
        c.push(0);
    }
    c
}

fn fmt_body(encoding: u16, channels: u16, rate: u32, bits: u16) -> Vec<u8> {
    let mut f = Vec::new();
    f.extend_from_slice(&encoding.to_le_bytes());
    f.extend_from_slice(&channels.to_le_bytes());
    f.extend_from_slice(&rate.to_le_bytes());
    f.extend_from_slice(&(rate * 4).to_le_bytes());
    f.extend_from_slice(&4u16.to_le_bytes());
    f.extend_from_slice(&bits.to_le_bytes());
    f
}

fn riff(chunks: &[Vec<u8>]) -> Vec<u8> {
    let body: Vec<u8> = chunks.concat();
    let mut b = b"RIFF".to_vec();
    b.extend_from_slice(&(4 + body.len() as u32).to_le_bytes());
    b.extend_from_slice(b"WAVE");
    b.extend_from_slice(&body);
    b
}

#[test]
fn wav_finds_format_and_data_after_other_chunks() {
    let b = riff(&[
        chunk(b"LIST", b"odd"),
        chunk(b"fmt ", &fmt_body(1, 2, 44_100, 16)),
        chunk(b"data", &[1, 2, 3, 4, 5, 6, 7, 8]),
    ]);
    let w = parse_wav(&b).unwrap();
    assert_eq!((w.format.encoding, w.format.channels, w.format.sample_rate, w.format.bits), (1, 2, 44_100, 16));
    assert_eq!(w.frame_channels, 2);
    assert_eq!(&b[w.start..w.end], &[1, 2, 3, 4, 5, 6, 7, 8]);
}

#[test]
fn wav_written_header_reads_back() {
    let mut b = float_mono_wav_header(3, 16_000);
    assert_eq!(b.len(), 44);
    assert_eq!(&b[0..4], b"RIFF");
    assert_eq!(u32::from_le_bytes([b[4], b[5], b[6], b[7]]), 36 + 12);
    assert_eq!(u32::from_le_bytes([b[28], b[29], b[30], b[31]]), 64_000);
    for s in [0.5f32, -0.25, 1.0] {
        b.extend_from_slice(&s.to_le_bytes());
    }
    let w = parse_wav(&b).unwrap();
    assert_eq!((w.format.encoding, w.format.channels, w.format.sample_rate, w.format.bits), (3, 1, 16_000, 32));
    assert_eq!((w.start, w.end), (44, 56));
}

#[test]
fn wav_truncated_data_is_cut_at_end_of_file() {
    let mut b = riff(&[chunk(b"fmt ", &fmt_body(3, 0, 8_000, 32))]);
    b.extend_from_slice(b"data");
    b.extend_from_slice(&1000u32.to_le_bytes());
    b.extend_from_slice(&[9, 9, 9, 9]);
    let w = parse_wav(&b).unwrap();
    assert_eq!(w.frame_channels, 1);
    assert_eq!(w.end, b.len());
    assert_eq!(w.end - w.start, 4);
}

#[test]
fn wav_errors() {
    assert_eq!(parse_wav(b"RIFX\0\0\0\0WAVE"), Err(WavError::NotRiff));
    assert_eq!(parse_wav(b"RIFF"), Err(WavError::NotRiff));
    assert_eq!(parse_wav(&riff(&[chunk(b"data", &[0, 0])])), Err(WavError::DataBeforeFmt));
    assert_eq!(
        parse_wav(&riff(&[chunk(b"fmt ", &fmt_body(1, 1, 8_000, 24)), chunk(b"data", &[0; 6])])),
        Err(WavError::Unsupported { encoding: 1, bits: 24 })
    );
    assert_eq!(parse_wav(&riff(&[chunk(b"fmt ", &fmt_body(1, 1, 8_000, 16))])), Err(WavError::NoData));
}

#[test]
fn wav_error_messages() {
    assert_eq!(WavError::NotRiff.message("a.wav"), "a.wav: not a RIFF/WAVE file");
    assert_eq!(WavError::DataBeforeFmt.message("a.wav"), "a.wav: data before fmt");
    assert_eq!(
        WavError::Unsupported { encoding: 65534, bits: 24 }.message("b.wav"),
        "b.wav: unsupported WAV encoding (format 65534, 24 bits)"
    );
    assert_eq!(WavError::NoData.message(""), ": no data chunk");
}

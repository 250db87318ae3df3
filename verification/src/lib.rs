//! Verified core of a near-field voice isolation engine: the byte-level
//! codecs, framing and decision logic around the floating-point DSP.

pub mod activity;
pub mod amgm;
pub mod agent;
pub mod bands;
pub mod base64;
pub mod bignum;
pub mod cli;
pub mod config;
pub mod ffi_state;
pub mod framing;
pub mod le;
pub mod pcm;
pub mod profile_bytes;
pub mod text;
pub mod wav;

//! A verified ROT13 transcoding stream and the challenge-computation pipeline
//! built on it: decoded instruction bytes plus a quantized time window are
//! hashed into a lowercase hexadecimal digest.

pub mod challenge;
pub mod dto;
pub mod rot13;
pub mod sink;

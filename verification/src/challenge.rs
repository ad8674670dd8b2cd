//! The challenge evaluator: decode encoded instructions through the ROT13
//! stream into a buffer, append the quantized time window in decimal, and
//! hash the whole buffer into a lowercase hexadecimal digest.

use crate::rot13::lemma_transcode_involutive;
use crate::rot13::transcode_seq;
use crate::rot13::Rot13Writer;
use crate::sink::BufferSink;
use crate::sink::ByteSink;
use crate::sink::SinkWriteFailure;
use vstd::arithmetic::div_mod::lemma_fundamental_div_mod;
use vstd::prelude::*;

verus! {

/// The most recent multiple of thirty seconds at or before `t`.
pub open spec fn window_of(t: nat) -> nat {
    (t - (t % 30)) as nat
}

/// The ASCII decimal representation of `n`: most significant digit first, no
/// sign, no leading zeros beyond the natural representation.
pub open spec fn decimal_digits(n: nat) -> Seq<u8>
    decreases n,
{
    if n < 10 {
        seq![(48 + n) as u8]
    } else {
        decimal_digits(n / 10) + seq![(48 + n % 10) as u8]
    }
}

/// The number a decimal digit sequence denotes, read left to right.
pub open spec fn decimal_value(s: Seq<u8>) -> nat
    decreases s.len(),
{
    if s.len() == 0 {
        0
    } else {
        decimal_value(s.drop_last()) * 10 + ((s.last() - 48) as nat)
    }
}

/// The decimal digits of `n` denote `n` itself.
pub proof fn lemma_decimal_value_of_digits(n: nat)
    ensures
        decimal_value(decimal_digits(n)) == n,
    decreases n,
{
    if n < 10 {
        let s = decimal_digits(n);
        assert(s == seq![(48 + n) as u8]);
        assert(s.last() == (48 + n) as u8);
        assert(s.drop_last() =~= Seq::<u8>::empty());
        assert(decimal_value(s) == decimal_value(s.drop_last()) * 10 + ((s.last() - 48) as nat));
    } else {
        lemma_decimal_value_of_digits(n / 10);
        let s = decimal_digits(n);
        assert(s == decimal_digits(n / 10) + seq![(48 + n % 10) as u8]);
        assert(s.last() == (48 + n % 10) as u8);
        assert(s.drop_last() =~= decimal_digits(n / 10));
        assert(decimal_value(s) == decimal_value(s.drop_last()) * 10 + ((s.last() - 48) as nat));
        lemma_fundamental_div_mod(n as int, 10);
        assert(decimal_value(s) == (n / 10) * 10 + n % 10);
    }
}

/// Distinct numbers have distinct decimal representations.
pub proof fn lemma_decimal_digits_injective(a: nat, b: nat)
    requires
        a != b,
    ensures
        decimal_digits(a) != decimal_digits(b),
{
    lemma_decimal_value_of_digits(a);
    lemma_decimal_value_of_digits(b);
}

/// The ASCII byte of one lowercase hexadecimal digit.
pub open spec fn hex_digit(n: nat) -> u8 {
    if n < 10 {
        (48 + n) as u8
    } else {
        (87 + n) as u8
    }
}

/// The two lowercase hexadecimal digits of one byte, high nibble first.
pub open spec fn hex_pair(b: u8) -> Seq<u8> {
    seq![hex_digit((b / 16) as nat), hex_digit((b % 16) as nat)]
}

/// The lowercase hexadecimal rendering of a byte sequence.
pub open spec fn hex_bytes(s: Seq<u8>) -> Seq<u8>
    decreases s.len(),
{
    if s.len() == 0 {
        Seq::empty()
    } else {
        hex_bytes(s.drop_last()) + hex_pair(s.last())
    }
}

/// The characters of an ASCII byte sequence, byte for byte.
pub open spec fn ascii_chars(s: Seq<u8>) -> Seq<char> {
    s.map_values(|b: u8| b as char)
}

/// The 32-byte BLAKE3 digest of a byte sequence; a function of the bytes
/// alone.
pub uninterp spec fn blake3_of(bytes: Seq<u8>) -> Seq<u8>;

/// Relies on blake3::hash: the digest is a function of the input bytes alone
/// and is exactly 32 bytes long.
#[verifier::external_body]
fn blake3_digest(bytes: &Vec<u8>) -> (digest: Vec<u8>)
    ensures
        digest@ == blake3_of(bytes@),
        digest@.len() == 32,
{
    blake3::hash(bytes.as_slice()).as_bytes().to_vec()
}

/// Relies on chrono::Utc::now: reads the wall clock; `timestamp` renders it
/// as whole seconds since the Unix epoch. Nothing is promised of the value:
/// the clock is the pipeline's one environmental input.
#[verifier::external_body]
fn now_unix_seconds() -> (t: i64) {
    chrono::Utc::now().timestamp()
}

/// Relies on String::from_utf8: bytes below 128 are single-byte UTF-8
/// scalars, so they decode to the characters with the same code points.
#[verifier::external_body]
fn ascii_to_string(bytes: Vec<u8>) -> (s: String)
    requires
        forall|i: int| 0 <= i < bytes@.len() ==> bytes@[i] < 128,
    ensures
        s@ == ascii_chars(bytes@),
{
    match String::from_utf8(bytes) {
        Ok(text) => text,
        Err(_) => String::new(),
    }
}

/// Quantize a timestamp down to the most recent thirty-second boundary at or
/// before it.
pub fn quantize_window(timestamp: u64) -> (w: u64)
    ensures
        w == window_of(timestamp as nat),
        w % 30 == 0,
        w <= timestamp < w + 30,
{
    proof {
        lemma_fundamental_div_mod(timestamp as int, 30);
    }
    timestamp - timestamp % 30
}

/// Append the decimal ASCII digits of `n` to `out`.
pub fn push_decimal(n: u64, out: &mut Vec<u8>)
    ensures
        final(out)@ == old(out)@ + decimal_digits(n as nat),
    decreases n,
{
    if n >= 10 {
        push_decimal(n / 10, out);
    }
    let digit: u8 = 48 + (n % 10) as u8;
    out.push(digit);
    assert(out@ =~= old(out)@ + decimal_digits(n as nat));
}

/// The ASCII byte of one lowercase hexadecimal digit.
fn hex_digit_byte(n: u8) -> (d: u8)
    requires
        n < 16,
    ensures
        d == hex_digit(n as nat),
        d < 128,
{
    if n < 10 {
        48 + n
    } else {
        87 + n
    }
}

/// Render a byte sequence as lowercase hexadecimal ASCII, two digits per
/// byte.
pub fn to_hex(bytes: &Vec<u8>) -> (hex: Vec<u8>)
    ensures
        hex@ == hex_bytes(bytes@),
        forall|i: int| 0 <= i < hex@.len() ==> hex@[i] < 128,
{
    let mut hex: Vec<u8> = Vec::new();
    let mut i: usize = 0;
    while i < bytes.len()
        invariant
            i <= bytes@.len(),
            hex@ == hex_bytes(bytes@.take(i as int)),
            forall|j: int| 0 <= j < hex@.len() ==> hex@[j] < 128,
        decreases bytes@.len() - i,
    {
        let b: u8 = bytes[i];
        let high: u8 = hex_digit_byte(b / 16);
        let low: u8 = hex_digit_byte(b % 16);
        hex.push(high);
        hex.push(low);
        proof {
            assert(bytes@.take(i as int + 1).drop_last() =~= bytes@.take(i as int));
            assert(hex@ =~= hex_bytes(bytes@.take(i as int + 1)));
        }
        i += 1;
    }
    proof {
        assert(bytes@.take(bytes@.len() as int) =~= bytes@);
    }
    hex
}

/// The hexadecimal rendering has two digits for each byte.
pub proof fn lemma_hex_bytes_len(s: Seq<u8>)
    ensures
        hex_bytes(s).len() == 2 * s.len(),
    decreases s.len(),
{
    if s.len() > 0 {
        lemma_hex_bytes_len(s.drop_last());
    }
}

/// The exact byte sequence the digest is computed over: the decoded
/// instructions followed by the decimal digits of the window.
pub open spec fn challenge_buffer(encoded: Seq<u8>, window: nat) -> Seq<u8> {
    transcode_seq(encoded) + decimal_digits(window)
}

/// The challenge digest for encoded instructions evaluated at `timestamp`:
/// the lowercase hexadecimal BLAKE3 digest of the decoded instructions with
/// the quantized window appended.
pub open spec fn challenge_digest(encoded: Seq<u8>, timestamp: nat) -> Seq<char> {
    ascii_chars(hex_bytes(blake3_of(challenge_buffer(encoded, window_of(timestamp)))))
}

/// Produce the challenge digest for `encoded_instructions` as of the given
/// timestamp: decode through a fresh ROT13 writer into an empty buffer,
/// flush, append the decimal quantized window, hash, and render the digest in
/// lowercase hexadecimal. The in-memory buffer accepts every write, so the
/// result is always `Ok`; a failing sink would be propagated in the error
/// case.
pub fn evaluate_at(encoded_instructions: &[u8], timestamp: u64) -> (r: Result<
    String,
    SinkWriteFailure,
>)
    ensures
        r is Ok,
        r->Ok_0@ == challenge_digest(encoded_instructions@, timestamp as nat),
        r->Ok_0@.len() == 64,
{
    let mut writer = Rot13Writer::new(BufferSink::new());
    assert(writer.contents() =~= Seq::<u8>::empty());
    match writer.write(encoded_instructions) {
        Ok(_) => {},
        Err(error) => {
            return Err(error);
        },
    }
    match writer.flush() {
        Ok(_) => {},
        Err(error) => {
            return Err(error);
        },
    }
    assert(writer.contents() =~= encoded_instructions@);
    let mut decoded = writer.inner.into_vec();
    proof {
        lemma_transcode_involutive(decoded@);
    }
    assert(decoded@ == transcode_seq(encoded_instructions@));
    let window: u64 = quantize_window(timestamp);
    push_decimal(window, &mut decoded);
    let digest = blake3_digest(&decoded);
    let hex = to_hex(&digest);
    proof {
        lemma_hex_bytes_len(digest@);
    }
    Ok(ascii_to_string(hex))
}

/// Produce the challenge digest for `encoded_instructions` as of the current
/// wall clock, read once per evaluation. Whatever the clock returned, the
/// digest is the one some timestamp yields; a reading before the Unix epoch
/// is treated as the epoch itself (such times are outside the protocol's
/// scope).
pub fn evaluate(encoded_instructions: &[u8]) -> (r: Result<String, SinkWriteFailure>)
    ensures
        r is Ok,
        exists|t: u64| r->Ok_0@ == challenge_digest(encoded_instructions@, t as nat),
        r->Ok_0@.len() == 64,
{
    let now: i64 = now_unix_seconds();
    let timestamp: u64 = if now >= 0 {
        now as u64
    } else {
        0
    };
    let result = evaluate_at(encoded_instructions, timestamp);
    assert(result->Ok_0@ == challenge_digest(encoded_instructions@, timestamp as nat));
    result
}

/// Two timestamps in the same thirty-second bucket quantize to the same
/// window, so the same encoded instructions evaluated at either of them yield
/// the identical digest.
pub proof fn lemma_same_window_same_digest(encoded: Seq<u8>, t1: nat, t2: nat)
    requires
        t1 / 30 == t2 / 30,
    ensures
        challenge_digest(encoded, t1) == challenge_digest(encoded, t2),
{
    lemma_fundamental_div_mod(t1 as int, 30);
    lemma_fundamental_div_mod(t2 as int, 30);
}

/// Timestamps from different thirty-second buckets quantize to different
/// windows, and different windows hand the hash different input buffers: the
/// appended decimal digits differ, so the hashed byte sequences differ. That
/// the digests themselves then differ rests on the hash's collision
/// resistance, which is exercised by tests, not proved.
pub proof fn lemma_distinct_bucket_distinct_buffer(encoded: Seq<u8>, t1: nat, t2: nat)
    requires
        t1 / 30 != t2 / 30,
    ensures
        challenge_buffer(encoded, window_of(t1)) != challenge_buffer(encoded, window_of(t2)),
{
    lemma_fundamental_div_mod(t1 as int, 30);
    lemma_fundamental_div_mod(t2 as int, 30);
    assert(window_of(t1) != window_of(t2));
    lemma_decimal_digits_injective(window_of(t1), window_of(t2));
    let p = transcode_seq(encoded);
    let d1 = decimal_digits(window_of(t1));
    let d2 = decimal_digits(window_of(t2));
    if p + d1 == p + d2 {
        assert(d1 =~= (p + d1).skip(p.len() as int));
        assert(d2 =~= (p + d2).skip(p.len() as int));
    }
}

} // verus!


//! The ROT13 substitution cipher: a case-preserving rotation of the two ASCII
//! alphabets, applied byte by byte, and a stream wrapper that applies it to
//! everything forwarded to an inner byte sink.

use crate::sink::ByteSink;
use crate::sink::SinkWriteFailure;
use vstd::prelude::*;

verus! {

/// Inclusive lower bound of the lowercase ASCII alphabet (`a`).
pub const LOWER_BEGIN: u8 = 97;
/// Inclusive upper bound of the lowercase ASCII alphabet (`z`).
pub const LOWER_END: u8 = 122;
/// Inclusive lower bound of the uppercase ASCII alphabet (`A`).
pub const UPPER_BEGIN: u8 = 65;
/// Inclusive upper bound of the uppercase ASCII alphabet (`Z`).
pub const UPPER_END: u8 = 90;

/// The rotation of byte `c` thirteen places within the 26-byte alphabet that
/// starts at `lower`, wrapping around; a byte outside that alphabet is its own
/// image.
pub open spec fn spec_rot13_with_bound(c: u8, lower: u8) -> u8 {
    if lower <= c <= lower + 25 {
        ((c - lower + 13) % 26 + lower) as u8
    } else {
        c
    }
}

/// True of the bytes `a` through `z`.
pub open spec fn is_lowercase(c: u8) -> bool {
    LOWER_BEGIN <= c <= LOWER_END
}

/// True of the bytes `A` through `Z`.
pub open spec fn is_uppercase(c: u8) -> bool {
    UPPER_BEGIN <= c <= UPPER_END
}

/// True of the bytes of both alphabets.
pub open spec fn is_letter(c: u8) -> bool {
    is_lowercase(c) || is_uppercase(c)
}

/// The ROT13 image of one byte: a letter rotates within its own case, every
/// other byte is unchanged.
pub open spec fn spec_rot13_byte(c: u8) -> u8 {
    if is_lowercase(c) {
        spec_rot13_with_bound(c, LOWER_BEGIN)
    } else if is_uppercase(c) {
        spec_rot13_with_bound(c, UPPER_BEGIN)
    } else {
        c
    }
}

/// The ROT13 image of a byte sequence, byte for byte.
pub open spec fn transcode_seq(s: Seq<u8>) -> Seq<u8> {
    s.map_values(|c: u8| spec_rot13_byte(c))
}

/// Rotate a single byte thirteen places within the 26-letter alphabet that
/// begins at `lower_bound_inclusive`, wrapping around the end of the alphabet.
/// A byte outside the alphabet is returned unchanged (a defensive no-op: the
/// callers dispatch on the ranges first, so that branch is never needed).
pub fn rot13_character(character: u8, lower_bound_inclusive: u8) -> (rotated: u8)
    requires
        lower_bound_inclusive <= 229,
    ensures
        rotated == spec_rot13_with_bound(character, lower_bound_inclusive),
{
    if !(lower_bound_inclusive <= character && character <= lower_bound_inclusive + 25) {
        return character;
    }
    let adjusted_bound_character = character - lower_bound_inclusive;
    let rotated_character = (adjusted_bound_character + 13) % 26;
    rotated_character + lower_bound_inclusive
}

/// Transform one byte as the transcoder does: rotate a letter of either case,
/// pass every other byte through.
pub fn transcode_byte(c: u8) -> (r: u8)
    ensures
        r == spec_rot13_byte(c),
{
    if LOWER_BEGIN <= c && c <= LOWER_END {
        rot13_character(c, LOWER_BEGIN)
    } else if UPPER_BEGIN <= c && c <= UPPER_END {
        rot13_character(c, UPPER_BEGIN)
    } else {
        c
    }
}

/// No byte leaves its alphabet: the image of a lowercase letter is lowercase
/// and the image of an uppercase letter is uppercase, so case is never
/// altered.
pub proof fn lemma_alphabet_closure(c: u8)
    ensures
        is_lowercase(c) ==> is_lowercase(spec_rot13_byte(c)),
        is_uppercase(c) ==> is_uppercase(spec_rot13_byte(c)),
{
}

/// No letter is a fixed point of the rotation: thirteen is not a multiple of
/// twenty-six.
pub proof fn lemma_no_fixed_point(c: u8)
    requires
        is_letter(c),
    ensures
        spec_rot13_byte(c) != c,
{
}

/// A byte outside both alphabets passes through unchanged.
pub proof fn lemma_identity_on_non_letters(c: u8)
    requires
        !is_letter(c),
    ensures
        spec_rot13_byte(c) == c,
{
}

/// Rotating a byte twice gives the original byte back.
pub proof fn lemma_rot13_byte_involutive(c: u8)
    ensures
        spec_rot13_byte(spec_rot13_byte(c)) == c,
{
}

/// Transcoding a byte sequence twice gives the original sequence back.
pub proof fn lemma_transcode_involutive(s: Seq<u8>)
    ensures
        transcode_seq(transcode_seq(s)) == s,
{
    assert forall|i: int| 0 <= i < s.len() implies transcode_seq(transcode_seq(s))[i] == s[i] by {
        lemma_rot13_byte_involutive(s[i]);
    }
    assert(transcode_seq(transcode_seq(s)) =~= s);
}

/// Transcoding maps a concatenation to the concatenation of the images.
pub proof fn lemma_transcode_append(a: Seq<u8>, b: Seq<u8>)
    ensures
        transcode_seq(a + b) == transcode_seq(a) + transcode_seq(b),
{
    assert(transcode_seq(a + b) =~= transcode_seq(a) + transcode_seq(b));
}

/// Forwards byte data to an inner sink, performing the ROT13 cipher on
/// alphabet bytes before forwarding them to the inner sink.
///
/// Seen as a sink itself, its contents are the ROT13 image of what the inner
/// sink holds: the cipher is self-inverse, so writing encoded bytes through
/// the wrapper leaves the decoded bytes in the inner sink.
pub struct Rot13Writer<T: ByteSink> {
    pub inner: T,
}

impl<T: ByteSink> Rot13Writer<T> {
    /// Constructs a new Rot13Writer around the sink that receives the
    /// transformed bytes.
    pub fn new(inner: T) -> (w: Self)
        ensures
            w.inner == inner,
    {
        Self { inner }
    }
}

impl<T: ByteSink> ByteSink for Rot13Writer<T> {
    open spec fn contents(&self) -> Seq<u8> {
        transcode_seq(self.inner.contents())
    }

    open spec fn reliable(&self) -> bool {
        self.inner.reliable()
    }

    fn write(&mut self, buf: &[u8]) -> (r: Result<usize, SinkWriteFailure>) {
        let mut total_bytes_written: usize = 0;
        let mut pos: usize = 0;

        if buf.is_empty() {
            assert(old(self).contents() + buf@ =~= old(self).contents());
            return Ok(0);
        }
        while pos < buf.len()
            invariant
                pos <= buf@.len(),
                total_bytes_written <= pos,
                old(self).reliable() ==> self.inner.reliable() && total_bytes_written == pos
                    && self.inner.contents() == old(self).inner.contents() + transcode_seq(
                    buf@.take(pos as int),
                ),
            decreases buf@.len() - pos,
        {
            let chunk_end: usize = if buf.len() - pos < 8 {
                buf.len()
            } else {
                pos + 8
            };
            let mut transform_buf: Vec<u8> = Vec::new();
            let mut idx: usize = pos;
            while idx < chunk_end
                invariant
                    pos <= idx <= chunk_end <= buf@.len(),
                    transform_buf@ == transcode_seq(buf@.subrange(pos as int, idx as int)),
                decreases chunk_end - idx,
            {
                let transformed: u8 = transcode_byte(buf[idx]);
                transform_buf.push(transformed);
                assert(transform_buf@ =~= transcode_seq(
                    buf@.subrange(pos as int, idx as int + 1),
                ));
                idx += 1;
            }
            let ghost inner_before = self.inner.contents();
            match self.inner.write(transform_buf.as_slice()) {
                Ok(count) => {
                    total_bytes_written += count;
                    proof {
                        if old(self).reliable() {
                            assert(self.inner.contents() =~= old(self).inner.contents()
                                + transcode_seq(buf@.take(chunk_end as int)));
                        }
                    }
                },
                Err(error) => {
                    return Err(error);
                },
            }
            pos = chunk_end;
        }
        proof {
            if old(self).reliable() {
                assert(buf@.take(buf@.len() as int) =~= buf@);
                lemma_transcode_append(old(self).inner.contents(), transcode_seq(buf@));
                lemma_transcode_involutive(buf@);
            }
        }
        Ok(total_bytes_written)
    }

    fn flush(&mut self) -> (r: Result<(), SinkWriteFailure>) {
        self.inner.flush()
    }
}

} // verus!

use rot13_challenge::rot13::rot13_character;
use rot13_challenge::rot13::transcode_byte;
use rot13_challenge::rot13::Rot13Writer;
use rot13_challenge::sink::BufferSink;
use rot13_challenge::sink::ByteSink;

/// Run bytes through a fresh writer backed by an in-memory buffer.
fn rot13(bytes: &[u8]) -> Vec<u8> {
    let mut writer = Rot13Writer::new(BufferSink::new());
    writer.write(bytes).unwrap();
    writer.flush().unwrap();
    writer.inner.into_vec()
}

#[test]
fn writer_converts_properly() {
    let original_string = "abcdefghijklmnopqrstuvwxyz ABCDEFGHIJKLMNOPQRSTUVWXYZ #!()";
    let expected_result = "nopqrstuvwxyzabcdefghijklm NOPQRSTUVWXYZABCDEFGHIJKLM #!()";

    let mut writer = Rot13Writer::new(BufferSink::new());
    writer.write(original_string.as_bytes()).unwrap();
    writer.flush().unwrap();

    let result = String::from_utf8(writer.inner.into_vec()).unwrap();
    assert_eq!(result, expected_result);
}

#[test]
fn returns_original_character_if_outside_range() {
    let resolved_character_low = rot13_character('A' as u8, 'a' as u8);
    let resolved_character_high = rot13_character('Z' as u8, 'a' as u8);
    assert_eq!('A' as u8, resolved_character_low);
    assert_eq!('Z' as u8, resolved_character_high);
}

#[test]
fn converts_lowercase_correctly() {
    let original = "abcdefghijklmnopqrstuvwxyz";
    let converted = "nopqrstuvwxyzabcdefghijklm";

    for (orig_char, conv_char) in original.chars().zip(converted.chars()) {
        let resolved_character = rot13_character(orig_char as u8, 'a' as u8);
        assert_eq!(conv_char as u8, resolved_character);
    }
}

#[test]
fn converts_uppercase_correctly() {
    let original = "ABCDEFGHIJKLMNOPQRSTUVWXYZ";
    let converted = "NOPQRSTUVWXYZABCDEFGHIJKLM";

    for (orig_char, conv_char) in original.chars().zip(converted.chars()) {
        let resolved_character = rot13_character(orig_char as u8, 'A' as u8);
        assert_eq!(conv_char as u8, resolved_character);
    }
}

#[test]
fn rotate_wraps_at_alphabet_end() {
    assert_eq!(rot13_character('A' as u8, 'A' as u8), 'N' as u8);
    assert_eq!(rot13_character('Z' as u8, 'A' as u8), 'M' as u8);
}

#[test]
fn empty_write_returns_zero_and_leaves_sink_untouched() {
    let mut writer = Rot13Writer::new(BufferSink::new());
    let written = writer.write(&[]).unwrap();
    assert_eq!(written, 0);
    writer.flush().unwrap();
    assert_eq!(writer.inner.into_vec().len(), 0);
}

#[test]
fn write_reports_full_count() {
    let mut writer = Rot13Writer::new(BufferSink::new());
    let written = writer.write(b"Why did the chicken cross the road?").unwrap();
    assert_eq!(written, 35);
}

#[test]
fn transcode_is_self_inverse_on_every_byte_sequence_sampled() {
    let all_bytes: Vec<u8> = (0u8..=255u8).collect();
    assert_eq!(rot13(&rot13(&all_bytes)), all_bytes);
    let text = b"The Quick Brown Fox Jumps Over 13 Lazy Dogs!";
    assert_eq!(rot13(&rot13(text)), text.to_vec());
    assert_eq!(rot13(&rot13(b"")), Vec::<u8>::new());
}

#[test]
fn letters_stay_in_their_alphabet_and_none_is_fixed() {
    for c in b'a'..=b'z' {
        let r = transcode_byte(c);
        assert!(r.is_ascii_lowercase());
        assert_ne!(r, c);
    }
    for c in b'A'..=b'Z' {
        let r = transcode_byte(c);
        assert!(r.is_ascii_uppercase());
        assert_ne!(r, c);
    }
}

#[test]
fn non_letters_pass_through_unchanged() {
    for c in 0u8..=255u8 {
        if !c.is_ascii_alphabetic() {
            assert_eq!(transcode_byte(c), c);
        }
    }
}

#[test]
fn chunked_writes_keep_byte_order() {
    // longer than one internal batch, so several forwarded writes are joined
    let input = b"abcdefghijklmnopqrstuvwxyz0123456789ABCDEFGHIJKLMNOPQRSTUVWXYZ";
    let expected = b"nopqrstuvwxyzabcdefghijklm0123456789NOPQRSTUVWXYZABCDEFGHIJKLM";
    assert_eq!(rot13(input), expected.to_vec());
}

//! End-to-end tests of the codec: exact wire layouts, round trips
//! (including self-overlapping copies), tie-breaking, and rejection of
//! corrupted streams.

use lz77r::{compress_bytes, compress_str, decompress, find_longest_match, DecodeError};

const HEADER: [u8; 10] = [0x4C, 0x5A, 0x37, 0x37, 0x52, 0x00, 0x10, 0x02, 0x01, 0x00];

fn encode(input: &[u8], window_size: usize, max_match_len: usize) -> Vec<u8> {
    let mut out: Vec<u8> = Vec::new();
    let n = compress_bytes(input, &mut out, window_size, max_match_len);
    assert_eq!(n as usize, out.len());
    out
}

#[test]
fn header_only_for_empty_input() {
    let out = encode(b"", 4096, 258);
    assert_eq!(out, HEADER.to_vec());
}

#[test]
fn exact_stream_for_repeated_block() {
    let out = encode(b"abcabcabc", 4096, 258);
    let mut expected = HEADER.to_vec();
    // literal 'a', literal 'b', literal 'c', then one reference that
    // covers "abcabc" against the three bytes already seen.
    expected.extend_from_slice(&[0x00, 0x61, 0x00, 0x62, 0x00, 0x63]);
    expected.extend_from_slice(&[0x01, 0x03, 0x00, 0x06, 0x00]);
    assert_eq!(out, expected);
}

#[test]
fn literal_pairs_below_min_match() {
    // The longest match at any position of "abab" is two bytes, below the
    // minimum match length, so only literal tokens appear.
    let out = encode(b"abab", 4096, 258);
    let mut expected = HEADER.to_vec();
    expected.extend_from_slice(&[0x00, 0x61, 0x00, 0x62, 0x00, 0x61, 0x00, 0x62]);
    assert_eq!(out, expected);
}

#[test]
fn tie_break_keeps_first_candidate_in_scan() {
    // At position 6 of "xyzxyzxyz" the candidates at offsets 6 and 3 both
    // match three bytes; the left-to-right scan saw offset 6 first, and a
    // tie never replaces the current best.
    assert_eq!(find_longest_match(b"xyzxyzxyz", 6, 4096, 258), (6, 3));
    // At position 3 of "aaaa" every window position matches the single
    // remaining byte; the first candidate found wins, at offset 3.
    assert_eq!(find_longest_match(b"aaaa", 3, 4096, 258), (3, 1));
}

#[test]
fn tie_break_in_full_compression() {
    // At position 10 the copies of "abcd" at offsets 10 and 5 tie with
    // four matching bytes each; the emitted reference keeps offset 10.
    let out = encode(b"abcdXabcdYabcd", 4096, 258);
    let mut expected = HEADER.to_vec();
    expected.extend_from_slice(&[0x00, 0x61, 0x00, 0x62, 0x00, 0x63, 0x00, 0x64, 0x00, 0x58]);
    expected.extend_from_slice(&[0x01, 0x05, 0x00, 0x04, 0x00]);
    expected.extend_from_slice(&[0x00, 0x59]);
    expected.extend_from_slice(&[0x01, 0x0A, 0x00, 0x04, 0x00]);
    assert_eq!(out, expected);
}

#[test]
fn round_trip_overlapping_alternating() {
    // "ababababab" compresses to two literals and a reference with
    // offset 2 but length 8: the copy overlaps the bytes it produces.
    let input = b"ababababab";
    let out = encode(input, 4096, 258);
    assert_eq!(decompress(&out), Ok(input.to_vec()));
}

#[test]
fn round_trip_run_length() {
    // A run of ten equal bytes yields a reference with offset 1 and
    // length 9, the run-length-style extreme of overlapping copies.
    let input = b"aaaaaaaaaa";
    let out = encode(input, 4096, 258);
    let mut expected = HEADER.to_vec();
    expected.extend_from_slice(&[0x00, 0x61, 0x01, 0x01, 0x00, 0x09, 0x00]);
    assert_eq!(out, expected);
    assert_eq!(decompress(&out), Ok(input.to_vec()));
}

#[test]
fn round_trip_empty() {
    let out = encode(b"", 4096, 258);
    assert_eq!(decompress(&out), Ok(Vec::new()));
}

#[test]
fn round_trip_repeated_block() {
    let input = b"abcabcabc";
    let out = encode(input, 4096, 258);
    assert_eq!(decompress(&out), Ok(input.to_vec()));
}

#[test]
fn round_trip_text() {
    let input = b"hello hello hello, this is a test of the compressor; hello again";
    let out = encode(input, 4096, 258);
    assert_eq!(decompress(&out), Ok(input.to_vec()));
}

#[test]
fn round_trip_binary_bytes() {
    let mut input: Vec<u8> = Vec::new();
    for i in 0..512u32 {
        input.push((i % 251) as u8);
        input.push((i * 7 % 256) as u8);
    }
    let out = encode(&input, 4096, 258);
    assert_eq!(decompress(&out), Ok(input));
}

#[test]
fn round_trip_smallest_window() {
    // window_size 1 only ever matches a directly repeated byte.
    let input = b"aaabbbcccaaa";
    let out = encode(input, 1, 258);
    assert_eq!(decompress(&out), Ok(input.to_vec()));
}

#[test]
fn round_trip_largest_parameters() {
    let input = b"the largest parameters still fit the 16-bit header fields";
    let out = encode(input, 0xFFFF, 0xFFFF);
    assert_eq!(decompress(&out), Ok(input.to_vec()));
}

#[test]
fn round_trip_capped_match_length() {
    // max_match_len 3 caps every reference at three bytes.
    let input = b"abcdefabcdefabcdef";
    let out = encode(input, 4096, 3);
    assert_eq!(decompress(&out), Ok(input.to_vec()));
}

#[test]
fn reject_offset_past_decoded_output() {
    // A reference token asking for five bytes back when nothing has been
    // decoded yet is corruption, not a panic or silent truncation.
    let mut data = HEADER.to_vec();
    data.extend_from_slice(&[0x01, 0x05, 0x00, 0x03, 0x00]);
    assert_eq!(decompress(&data), Err(DecodeError::BadOffset));
}

#[test]
fn reject_zero_offset() {
    let mut data = HEADER.to_vec();
    data.extend_from_slice(&[0x00, 0x61, 0x01, 0x00, 0x00, 0x03, 0x00]);
    assert_eq!(decompress(&data), Err(DecodeError::BadOffset));
}

#[test]
fn reject_bad_offset_in_zero_length_reference() {
    // Even a reference that copies nothing is corrupt when its offset is
    // zero or reaches back past the start of the decoded output.
    let mut out_of_range = HEADER.to_vec();
    out_of_range.extend_from_slice(&[0x01, 0x05, 0x00, 0x00, 0x00]);
    assert_eq!(decompress(&out_of_range), Err(DecodeError::BadOffset));

    let mut zero = HEADER.to_vec();
    zero.extend_from_slice(&[0x00, 0x61, 0x01, 0x00, 0x00, 0x00, 0x00]);
    assert_eq!(decompress(&zero), Err(DecodeError::BadOffset));
}

#[test]
fn reject_bad_magic() {
    let mut data = HEADER.to_vec();
    data[0] = 0x4D;
    assert_eq!(decompress(&data), Err(DecodeError::BadMagic));
}

#[test]
fn reject_truncated_header() {
    assert_eq!(decompress(b""), Err(DecodeError::TruncatedHeader));
    assert_eq!(decompress(&HEADER[..4]), Err(DecodeError::TruncatedHeader));
    assert_eq!(decompress(&HEADER[..9]), Err(DecodeError::TruncatedHeader));
}

#[test]
fn reject_truncated_token() {
    let mut literal_cut = HEADER.to_vec();
    literal_cut.push(0x00);
    assert_eq!(decompress(&literal_cut), Err(DecodeError::TruncatedToken));

    let mut reference_cut = HEADER.to_vec();
    reference_cut.extend_from_slice(&[0x00, 0x61, 0x01, 0x01, 0x00]);
    assert_eq!(decompress(&reference_cut), Err(DecodeError::TruncatedToken));
}

#[test]
fn reject_bad_token_kind() {
    let mut data = HEADER.to_vec();
    data.extend_from_slice(&[0x02, 0x61]);
    assert_eq!(decompress(&data), Err(DecodeError::BadTokenKind));
}

#[test]
fn compress_str_matches_compress_bytes() {
    // The string entry point writes exactly what the byte entry point
    // writes for the string's UTF-8 bytes: header, then tokens.
    let text = "hello hello hello";
    let mut from_str: Vec<u8> = Vec::new();
    let n = compress_str(text, &mut from_str, 4096, 258);
    assert_eq!(n as usize, from_str.len());
    let from_bytes = encode(text.as_bytes(), 4096, 258);
    assert_eq!(from_str, from_bytes);
    assert_eq!(decompress(&from_str), Ok(text.as_bytes().to_vec()));
}

#[test]
fn compress_str_empty_writes_header_only() {
    let mut out: Vec<u8> = Vec::new();
    let n = compress_str("", &mut out, 4096, 258);
    assert_eq!(n, 10);
    assert_eq!(out, HEADER.to_vec());
}

#[test]
fn no_match_at_start_of_input() {
    assert_eq!(find_longest_match(b"abcabc", 0, 4096, 258), (0, 0));
}

#[test]
fn window_limits_match_offset() {
    // The copy of "abcd" at offset 8 lies outside a window of 4, so no
    // reference can reach it and every token is a literal.
    let out = encode(b"abcdXYZWabcd", 4, 258);
    let token_bytes = &out[10..];
    assert_eq!(token_bytes.len(), 24);
    for chunk in token_bytes.chunks(2) {
        assert_eq!(chunk[0], 0x00);
    }
    assert_eq!(
        decompress(&encode(b"abcdXYZWabcd", 4, 258)),
        Ok(b"abcdXYZWabcd".to_vec())
    );
}

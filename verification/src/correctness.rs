//! The laws the codec obeys, proved against the encoder's and decoder's
//! models: every emitted reference token is within the configured bounds,
//! and decoding a compressed stream gives back the original input.

use crate::decoder::{decode_spec, decode_tokens, ref_expand, DecodeError};
use crate::encoder::{compressed_bytes, encode_tokens, token_stream};
use crate::format::{
    header_bytes, hi_byte, lemma_le16_of_split, lemma_serialize_one, lemma_serialize_tokens_cat,
    lemma_serialize_two, lo_byte, serialize_token, serialize_tokens, Token, HEADER_LEN, MAX_PARAM,
    MIN_MATCH_LEN, TOKEN_LITERAL, TOKEN_REFERENCE,
};
use crate::match_finder::{best_match, lemma_best_match_props};
use vstd::prelude::*;

verus! {

/// Every reference token the encoder emits stays within the configured
/// bounds: its offset is between 1 and the window size, and its length is
/// between the minimum match length and the configured maximum.
pub proof fn lemma_reference_token_bounds(
    input: Seq<u8>,
    pos: int,
    window_size: int,
    max_match_len: int,
    i: int,
)
    requires
        0 <= pos,
        1 <= window_size <= MAX_PARAM,
        1 <= max_match_len <= MAX_PARAM,
        0 <= i < encode_tokens(input, pos, window_size, max_match_len).len(),
    ensures
        encode_tokens(input, pos, window_size, max_match_len)[i] matches Token::Reference(
            off,
            len,
        ) ==> 1 <= off <= window_size && MIN_MATCH_LEN <= len <= max_match_len,
    decreases input.len() - pos,
{
    let ts = encode_tokens(input, pos, window_size, max_match_len);
    if pos < input.len() {
        let (off, len) = best_match(input, pos, window_size, max_match_len);
        lemma_best_match_props(input, pos, window_size, max_match_len);
        if len >= MIN_MATCH_LEN {
            if pos + len < input.len() {
                let head = seq![
                    Token::Reference(off, len),
                    Token::Literal(input[pos + len]),
                ];
                let rest = encode_tokens(input, pos + len + 1, window_size, max_match_len);
                assert(ts == head + rest);
                if i >= 2 {
                    assert(ts[i] == rest[i - 2]);
                    lemma_reference_token_bounds(
                        input,
                        pos + len + 1,
                        window_size,
                        max_match_len,
                        i - 2,
                    );
                }
            }
        } else {
            let head = seq![Token::Literal(input[pos])];
            let rest = encode_tokens(input, pos + 1, window_size, max_match_len);
            assert(ts == head + rest);
            if i >= 1 {
                assert(ts[i] == rest[i - 1]);
                lemma_reference_token_bounds(input, pos + 1, window_size, max_match_len, i - 1);
            }
        }
    }
}

/// Replaying a reference token byte by byte extends a decoded prefix of
/// `input` by exactly the matched bytes: copying `len` bytes from `off`
/// positions back, against output that is `input.take(pos)`, yields
/// `input.take(pos + len)` — also when the copy overlaps what it produces.
proof fn lemma_ref_expand_take(input: Seq<u8>, pos: int, off: int, len: int)
    requires
        1 <= off <= pos,
        0 <= len,
        pos + len <= input.len(),
        forall|j: int| 0 <= j < len ==> input[pos - off + j] == (#[trigger] input[pos + j]),
    ensures
        ref_expand(input.take(pos), off, len) == input.take(pos + len),
    decreases len,
{
    if len <= 0 {
        assert(input.take(pos) =~= input.take(pos + len));
    } else {
        let acc = input.take(pos);
        assert(acc[pos - off] == input[pos - off]);
        assert(input[pos - off + 0] == input[pos + 0]);
        assert(acc.push(input[pos]) =~= input.take(pos + 1));
        assert forall|j: int| 0 <= j < len - 1 implies input[(pos + 1) - off + j] == (
        #[trigger] input[(pos + 1) + j]) by {
            assert(input[pos - off + (j + 1)] == input[pos + (j + 1)]);
        }
        lemma_ref_expand_take(input, pos + 1, off, len - 1);
        assert(ref_expand(acc, off, len) == ref_expand(acc.push(acc[acc.len() - off]), off, len
            - 1));
        assert(acc.push(acc[acc.len() - off]) == input.take(pos + 1));
    }
}

/// One literal token at the front of the stream appends its byte to the
/// output and decoding continues behind it.
proof fn lemma_decode_literal_step(tail: Seq<u8>, acc: Seq<u8>, b: u8)
    ensures
        decode_tokens(serialize_token(Token::Literal(b)) + tail, acc) == decode_tokens(
            tail,
            acc.push(b),
        ),
{
    let bytes = serialize_token(Token::Literal(b)) + tail;
    assert(bytes[0] == TOKEN_LITERAL);
    assert(bytes[1] == b);
    assert(bytes.skip(2) =~= tail);
}

/// One in-bounds reference token at the front of the stream replays its
/// copy against the output and decoding continues behind it.
proof fn lemma_decode_reference_step(tail: Seq<u8>, acc: Seq<u8>, off: int, len: int)
    requires
        0 <= off <= MAX_PARAM,
        0 <= len <= MAX_PARAM,
        1 <= off <= acc.len(),
    ensures
        decode_tokens(serialize_token(Token::Reference(off, len)) + tail, acc) == decode_tokens(
            tail,
            ref_expand(acc, off, len),
        ),
{
    let bytes = serialize_token(Token::Reference(off, len)) + tail;
    assert(bytes[0] == TOKEN_REFERENCE);
    assert(bytes[1] == lo_byte(off) && bytes[2] == hi_byte(off));
    assert(bytes[3] == lo_byte(len) && bytes[4] == hi_byte(len));
    lemma_le16_of_split(off);
    lemma_le16_of_split(len);
    assert(bytes.skip(5) =~= tail);
}

/// Replaying the serialized token stream for `input` from position `pos`,
/// against output that already holds the first `pos` bytes of `input`,
/// reconstructs `input` exactly.
#[verifier::rlimit(60)]
proof fn lemma_decode_inverts_encode(input: Seq<u8>, pos: int, window_size: int, max_match_len: int)
    requires
        0 <= pos <= input.len(),
        1 <= window_size <= MAX_PARAM,
        1 <= max_match_len <= MAX_PARAM,
    ensures
        decode_tokens(
            serialize_tokens(encode_tokens(input, pos, window_size, max_match_len)),
            input.take(pos),
        ) == Ok::<Seq<u8>, DecodeError>(input),
    decreases input.len() - pos,
{
    let ts = encode_tokens(input, pos, window_size, max_match_len);
    if pos == input.len() {
        assert(ts =~= Seq::<Token>::empty());
        assert(serialize_tokens(ts) == Seq::<u8>::empty());
        assert(input.take(pos) =~= input);
    } else {
        let (off, len) = best_match(input, pos, window_size, max_match_len);
        lemma_best_match_props(input, pos, window_size, max_match_len);
        if len >= MIN_MATCH_LEN {
            let tok_ref = Token::Reference(off, len);
            lemma_ref_expand_take(input, pos, off, len);
            if pos + len < input.len() {
                let tok_lit = Token::Literal(input[pos + len]);
                let rest = encode_tokens(input, pos + len + 1, window_size, max_match_len);
                assert(ts == seq![tok_ref, tok_lit] + rest);
                lemma_serialize_tokens_cat(seq![tok_ref, tok_lit], rest);
                lemma_serialize_two(tok_ref, tok_lit);
                let rb = serialize_tokens(rest);
                assert(serialize_tokens(ts) =~= serialize_token(tok_ref) + (serialize_token(
                    tok_lit,
                ) + rb));
                lemma_decode_reference_step(serialize_token(tok_lit) + rb, input.take(pos), off, len);
                lemma_decode_literal_step(rb, input.take(pos + len), input[pos + len]);
                assert(input.take(pos + len).push(input[pos + len]) =~= input.take(pos + len + 1));
                lemma_decode_inverts_encode(input, pos + len + 1, window_size, max_match_len);
            } else {
                assert(ts == seq![tok_ref]);
                lemma_serialize_one(tok_ref);
                assert(serialize_tokens(ts) =~= serialize_token(tok_ref) + Seq::<u8>::empty());
                lemma_decode_reference_step(Seq::<u8>::empty(), input.take(pos), off, len);
                assert(input.take(pos + len) =~= input);
            }
        } else {
            let tok_lit = Token::Literal(input[pos]);
            let rest = encode_tokens(input, pos + 1, window_size, max_match_len);
            assert(ts == seq![tok_lit] + rest);
            lemma_serialize_tokens_cat(seq![tok_lit], rest);
            lemma_serialize_one(tok_lit);
            lemma_decode_literal_step(serialize_tokens(rest), input.take(pos), input[pos]);
            assert(input.take(pos).push(input[pos]) =~= input.take(pos + 1));
            lemma_decode_inverts_encode(input, pos + 1, window_size, max_match_len);
        }
    }
}

/// The round-trip law: for every finite byte sequence and every valid pair
/// of window parameters, decoding what the encoder produced gives back the
/// input unchanged.
pub proof fn lemma_round_trip(input: Seq<u8>, window_size: int, max_match_len: int)
    requires
        1 <= window_size <= MAX_PARAM,
        1 <= max_match_len <= MAX_PARAM,
    ensures
        decode_spec(compressed_bytes(input, window_size, max_match_len)) == Ok::<
            Seq<u8>,
            DecodeError,
        >(input),
{
    let enc = compressed_bytes(input, window_size, max_match_len);
    let hdr = header_bytes(window_size, max_match_len);
    let ts = token_stream(input, window_size, max_match_len);
    assert(hdr.len() == HEADER_LEN);
    assert(enc[0] == hdr[0] && enc[1] == hdr[1] && enc[2] == hdr[2] && enc[3] == hdr[3] && enc[4]
        == hdr[4]);
    assert(enc.skip(HEADER_LEN as int) =~= ts);
    assert(Seq::<u8>::empty() =~= input.take(0));
    lemma_decode_inverts_encode(input, 0, window_size, max_match_len);
}

} // verus!

//! The greedy token encoder: a single forward pass that asks the match
//! finder at each position, emits a reference token for any match of at
//! least the minimum length (always followed by one literal when bytes
//! remain), and a literal token otherwise.

use crate::format::{
    header_bytes, serialize_token, serialize_tokens, Token, MAX_PARAM, MIN_MATCH_LEN,
    TOKEN_LITERAL, TOKEN_REFERENCE,
};
use crate::format::{lemma_serialize_one, lemma_serialize_tokens_cat, lemma_serialize_two};
use crate::match_finder::{best_match, find_longest_match};
use vstd::prelude::*;
use vstd::string::StringSliceAdditionalSpecFns;

verus! {

/// The tokens the greedy pass emits for `input` from position `pos` on: a
/// reference for any match of at least [`MIN_MATCH_LEN`] bytes, followed by
/// one mandatory literal when bytes remain, and a single literal otherwise.
pub open spec fn encode_tokens(input: Seq<u8>, pos: int, window_size: int, max_match_len: int)
    -> Seq<Token>
    decreases input.len() - pos,
{
    if pos < 0 || pos >= input.len() {
        Seq::empty()
    } else {
        let (off, len) = best_match(input, pos, window_size, max_match_len);
        if len >= MIN_MATCH_LEN {
            if pos + len < input.len() {
                seq![Token::Reference(off, len), Token::Literal(input[pos + len])]
                    + encode_tokens(input, pos + len + 1, window_size, max_match_len)
            } else {
                seq![Token::Reference(off, len)]
            }
        } else {
            seq![Token::Literal(input[pos])] + encode_tokens(
                input,
                pos + 1,
                window_size,
                max_match_len,
            )
        }
    }
}

/// The byte stream of the whole token sequence for `input`.
pub open spec fn token_stream(input: Seq<u8>, window_size: int, max_match_len: int) -> Seq<u8> {
    serialize_tokens(encode_tokens(input, 0, window_size, max_match_len))
}

/// Everything a compression run writes: the ten-byte header, then the
/// token stream.
pub open spec fn compressed_bytes(input: Seq<u8>, window_size: int, max_match_len: int) -> Seq<
    u8,
> {
    header_bytes(window_size, max_match_len) + token_stream(input, window_size, max_match_len)
}

/// Appends the ten header bytes: the magic, the two window parameters as
/// 16-bit little-endian fields, and the reserved byte.
fn write_header(out: &mut Vec<u8>, window_size: usize, max_match_len: usize)
    requires
        window_size <= MAX_PARAM,
        max_match_len <= MAX_PARAM,
    ensures
        final(out)@ == old(out)@ + header_bytes(window_size as int, max_match_len as int),
{
    out.push(0x4C);
    out.push(0x5A);
    out.push(0x37);
    out.push(0x37);
    out.push(0x52);
    out.push((window_size % 256) as u8);
    out.push((window_size / 256) as u8);
    out.push((max_match_len % 256) as u8);
    out.push((max_match_len / 256) as u8);
    out.push(0x00);
    assert(out@ =~= old(out)@ + header_bytes(window_size as int, max_match_len as int));
}

/// Appends a two-byte literal token: the literal discriminator, then the
/// byte itself.
fn emit_literal_token(out: &mut Vec<u8>, literal: u8)
    ensures
        final(out)@ == old(out)@ + serialize_token(Token::Literal(literal)),
{
    out.push(TOKEN_LITERAL);
    out.push(literal);
    assert(out@ =~= old(out)@ + serialize_token(Token::Literal(literal)));
}

/// Appends a five-byte reference token: the reference discriminator, then
/// the offset and the length as 16-bit little-endian fields.
fn emit_reference_token(out: &mut Vec<u8>, offset: u16, length: u16)
    ensures
        final(out)@ == old(out)@ + serialize_token(
            Token::Reference(offset as int, length as int),
        ),
{
    out.push(TOKEN_REFERENCE);
    out.push((offset % 256) as u8);
    out.push((offset / 256) as u8);
    out.push((length % 256) as u8);
    out.push((length / 256) as u8);
    assert(out@ =~= old(out)@ + serialize_token(Token::Reference(offset as int, length as int)));
}

/// The greedy pass itself: appends the token stream for `input` (no
/// header) and returns how many bytes it appended.
fn compress(input: &[u8], out: &mut Vec<u8>, window_size: usize, max_match_len: usize) -> (n: u64)
    requires
        1 <= window_size <= MAX_PARAM,
        1 <= max_match_len <= MAX_PARAM,
    ensures
        final(out)@ == old(out)@ + token_stream(
            input@,
            window_size as int,
            max_match_len as int,
        ),
        n == token_stream(input@, window_size as int, max_match_len as int).len(),
{
    let start = out.len();
    let mut pos: usize = 0;
    while pos < input.len()
        invariant
            pos <= input@.len(),
            1 <= window_size <= MAX_PARAM,
            1 <= max_match_len <= MAX_PARAM,
            start <= out@.len(),
            old(out)@.len() == start,
            out@ + serialize_tokens(
                encode_tokens(input@, pos as int, window_size as int, max_match_len as int),
            ) == old(out)@ + token_stream(input@, window_size as int, max_match_len as int),
        decreases input@.len() - pos,
    {
        let ghost prev_pos = pos as int;
        let ghost prev_out = out@;
        let (match_offset, match_length) = find_longest_match(
            input,
            pos,
            window_size,
            max_match_len,
        );
        if match_length >= MIN_MATCH_LEN {
            let ghost tok_ref = Token::Reference(match_offset as int, match_length as int);
            emit_reference_token(out, match_offset as u16, match_length as u16);
            pos += match_length;
            if pos < input.len() {
                let ghost tok_lit = Token::Literal(input@[pos as int]);
                emit_literal_token(out, input[pos]);
                pos += 1;
                proof {
                    assert(encode_tokens(
                        input@,
                        prev_pos,
                        window_size as int,
                        max_match_len as int,
                    ) == seq![tok_ref, tok_lit] + encode_tokens(
                        input@,
                        pos as int,
                        window_size as int,
                        max_match_len as int,
                    ));
                    lemma_serialize_tokens_cat(
                        seq![tok_ref, tok_lit],
                        encode_tokens(input@, pos as int, window_size as int, max_match_len as int),
                    );
                    lemma_serialize_two(tok_ref, tok_lit);
                    assert(out@ + serialize_tokens(
                        encode_tokens(
                            input@,
                            pos as int,
                            window_size as int,
                            max_match_len as int,
                        ),
                    ) =~= prev_out + serialize_tokens(
                        encode_tokens(
                            input@,
                            prev_pos,
                            window_size as int,
                            max_match_len as int,
                        ),
                    ));
                }
            } else {
                proof {
                    assert(encode_tokens(
                        input@,
                        prev_pos,
                        window_size as int,
                        max_match_len as int,
                    ) == seq![tok_ref]);
                    lemma_serialize_one(tok_ref);
                    assert(encode_tokens(
                        input@,
                        pos as int,
                        window_size as int,
                        max_match_len as int,
                    ) =~= Seq::<Token>::empty());
                    assert(out@ + serialize_tokens(
                        encode_tokens(
                            input@,
                            pos as int,
                            window_size as int,
                            max_match_len as int,
                        ),
                    ) =~= prev_out + serialize_tokens(
                        encode_tokens(
                            input@,
                            prev_pos,
                            window_size as int,
                            max_match_len as int,
                        ),
                    ));
                }
            }
        } else {
            let ghost tok_lit = Token::Literal(input@[pos as int]);
            emit_literal_token(out, input[pos]);
            pos += 1;
            proof {
                assert(encode_tokens(input@, prev_pos, window_size as int, max_match_len as int)
                    == seq![tok_lit] + encode_tokens(
                    input@,
                    pos as int,
                    window_size as int,
                    max_match_len as int,
                ));
                lemma_serialize_tokens_cat(
                    seq![tok_lit],
                    encode_tokens(input@, pos as int, window_size as int, max_match_len as int),
                );
                lemma_serialize_one(tok_lit);
                assert(out@ + serialize_tokens(
                    encode_tokens(input@, pos as int, window_size as int, max_match_len as int),
                ) =~= prev_out + serialize_tokens(
                    encode_tokens(input@, prev_pos, window_size as int, max_match_len as int),
                ));
            }
        }
    }
    proof {
        assert(encode_tokens(input@, pos as int, window_size as int, max_match_len as int)
            =~= Seq::<Token>::empty());
        assert(out@ + Seq::<u8>::empty() =~= out@);
        assert(out@ =~= old(out)@ + token_stream(
            input@,
            window_size as int,
            max_match_len as int,
        ));
    }
    (out.len() - start) as u64
}

/// Compresses `input` into `out`: the ten-byte header, then the token
/// stream.  Returns the count of bytes written.
pub fn compress_bytes(input: &[u8], out: &mut Vec<u8>, window_size: usize, max_match_len: usize)
    -> (n: u64)
    requires
        1 <= window_size <= MAX_PARAM,
        1 <= max_match_len <= MAX_PARAM,
    ensures
        final(out)@ == old(out)@ + compressed_bytes(
            input@,
            window_size as int,
            max_match_len as int,
        ),
        n == compressed_bytes(input@, window_size as int, max_match_len as int).len(),
{
    let start = out.len();
    write_header(out, window_size, max_match_len);
    compress(input, out, window_size, max_match_len);
    assert(out@ =~= old(out)@ + compressed_bytes(
        input@,
        window_size as int,
        max_match_len as int,
    ));
    (out.len() - start) as u64
}

/// Compresses the UTF-8 bytes of `s` into `out`, exactly as
/// [`compress_bytes`] would: the ten-byte header, then the token stream.
/// Returns the count of bytes written.
pub fn compress_str(s: &str, out: &mut Vec<u8>, window_size: usize, max_match_len: usize) -> (n:
    u64)
    requires
        1 <= window_size <= MAX_PARAM,
        1 <= max_match_len <= MAX_PARAM,
    ensures
        final(out)@ == old(out)@ + compressed_bytes(
            s.spec_bytes(),
            window_size as int,
            max_match_len as int,
        ),
        n == compressed_bytes(s.spec_bytes(), window_size as int, max_match_len as int).len(),
{
    compress_bytes(s.as_bytes(), out, window_size, max_match_len)
}

} // verus!

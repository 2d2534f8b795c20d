//! The wire format: header layout, token shapes, and their byte-level
//! serialization, stated as spec functions that the encoder's and decoder's
//! contracts share.
//!
//! The header is exactly ten bytes: the five magic bytes `LZ77R` at offset
//! 0, the window size and the maximum match length as unsigned 16-bit
//! little-endian fields at offsets 5 and 7, and a reserved byte at offset
//! 9, written as zero; the token stream always starts at offset 10.  The
//! magic is exactly five bytes — the reserved byte is not part of it, and
//! decoders skip it without validating it.

use vstd::arithmetic::div_mod::lemma_fundamental_div_mod;
use vstd::prelude::*;

verus! {

/// Number of bytes in the fixed header: five magic bytes, the two window
/// parameters as unsigned 16-bit little-endian fields, and one reserved
/// byte, so that the token stream always starts at this offset.
pub const HEADER_LEN: usize = 10;

/// Fewest bytes a reference token may cover; shorter matches are emitted as
/// literals instead.
pub const MIN_MATCH_LEN: usize = 3;

/// Largest value a window parameter may take: each is stored in an unsigned
/// 16-bit header field.
pub const MAX_PARAM: usize = 0xFFFF;

/// Discriminator byte that opens a two-byte literal token.
pub const TOKEN_LITERAL: u8 = 0x00;

/// Discriminator byte that opens a five-byte reference token.
pub const TOKEN_REFERENCE: u8 = 0x01;

/// The magic bytes `LZ77R` that open every compressed stream.
pub open spec fn magic() -> Seq<u8> {
    seq![0x4Cu8, 0x5Au8, 0x37u8, 0x37u8, 0x52u8]
}

/// One emitted token: a single literal byte, or a back-reference
/// `Reference(offset, length)` standing for `length` bytes, each equal to
/// the byte `offset` positions earlier in the already-decoded output.
pub enum Token {
    Literal(u8),
    Reference(int, int),
}

/// Low byte of a 16-bit little-endian field.
pub open spec fn lo_byte(x: int) -> u8 {
    (x % 256) as u8
}

/// High byte of a 16-bit little-endian field.
pub open spec fn hi_byte(x: int) -> u8 {
    (x / 256) as u8
}

/// The value read back from a 16-bit little-endian field.
pub open spec fn le16(lo: u8, hi: u8) -> int {
    lo + 256 * hi
}

/// Splitting a 16-bit value into its two little-endian bytes and reading
/// them back yields the value unchanged.
pub proof fn lemma_le16_of_split(x: int)
    requires
        0 <= x <= MAX_PARAM,
    ensures
        le16(lo_byte(x), hi_byte(x)) == x,
{
    lemma_fundamental_div_mod(x, 256);
}

/// The bytes of one token on the wire.
pub open spec fn serialize_token(t: Token) -> Seq<u8> {
    match t {
        Token::Literal(b) => seq![TOKEN_LITERAL, b],
        Token::Reference(off, len) => seq![
            TOKEN_REFERENCE,
            lo_byte(off),
            hi_byte(off),
            lo_byte(len),
            hi_byte(len),
        ],
    }
}

/// The bytes of a token sequence on the wire, in emission order.
pub open spec fn serialize_tokens(ts: Seq<Token>) -> Seq<u8>
    decreases ts.len(),
{
    if ts.len() == 0 {
        Seq::empty()
    } else {
        serialize_token(ts[0]) + serialize_tokens(ts.skip(1))
    }
}

/// The ten header bytes: magic, the window size and the maximum match
/// length as 16-bit little-endian fields, and a reserved byte written as
/// zero and ignored by decoders.
pub open spec fn header_bytes(window_size: int, max_match_len: int) -> Seq<u8> {
    magic() + seq![
        lo_byte(window_size),
        hi_byte(window_size),
        lo_byte(max_match_len),
        hi_byte(max_match_len),
        0u8,
    ]
}

/// Serialization distributes over concatenation of token sequences.
pub proof fn lemma_serialize_tokens_cat(a: Seq<Token>, b: Seq<Token>)
    ensures
        serialize_tokens(a + b) == serialize_tokens(a) + serialize_tokens(b),
    decreases a.len(),
{
    if a.len() == 0 {
        assert(a + b =~= b);
        assert(serialize_tokens(a) + serialize_tokens(b) =~= serialize_tokens(b));
    } else {
        assert((a + b)[0] == a[0]);
        assert((a + b).skip(1) =~= a.skip(1) + b);
        lemma_serialize_tokens_cat(a.skip(1), b);
        assert(serialize_token(a[0]) + (serialize_tokens(a.skip(1)) + serialize_tokens(b)) =~= (
        serialize_token(a[0]) + serialize_tokens(a.skip(1))) + serialize_tokens(b));
    }
}

/// The bytes of a one-token sequence are the bytes of that token.
pub proof fn lemma_serialize_one(t: Token)
    ensures
        serialize_tokens(seq![t]) == serialize_token(t),
{
    assert(seq![t].skip(1) =~= Seq::<Token>::empty());
    assert(seq![t][0] == t);
    assert(serialize_tokens(seq![t]) == serialize_token(t) + serialize_tokens(
        Seq::<Token>::empty(),
    ));
    assert(serialize_tokens(Seq::<Token>::empty()) == Seq::<u8>::empty());
    assert(serialize_token(t) + Seq::<u8>::empty() =~= serialize_token(t));
}

/// The bytes of a two-token sequence are the two tokens' bytes in order.
pub proof fn lemma_serialize_two(t1: Token, t2: Token)
    ensures
        serialize_tokens(seq![t1, t2]) == serialize_token(t1) + serialize_token(t2),
{
    assert(seq![t1, t2].skip(1) =~= seq![t2]);
    lemma_serialize_one(t2);
}

} // verus!

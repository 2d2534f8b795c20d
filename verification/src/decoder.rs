//! The format decoder: validates the header, then replays the token
//! stream against a growing output buffer.  Reference tokens are copied
//! byte by byte, so a copy whose source range overlaps the bytes it is
//! itself producing (offset smaller than length) unrolls correctly.

use crate::format::{le16, HEADER_LEN, TOKEN_LITERAL, TOKEN_REFERENCE};
use vstd::prelude::*;

verus! {

/// Why a decode was rejected.  Every variant marks a corruption of the
/// input stream; the decoder never guesses or repairs.
#[derive(Clone, Copy, Debug, PartialEq, Eq, Structural)]
pub enum DecodeError {
    /// The first five bytes are not the format's magic.
    BadMagic,
    /// The stream ends before the ten header bytes are complete.
    TruncatedHeader,
    /// The stream ends in the middle of a token.
    TruncatedToken,
    /// A token discriminator byte is neither the literal nor the
    /// reference discriminator.
    BadTokenKind,
    /// A reference token's offset is zero or reaches back past the start
    /// of the decoded output.
    BadOffset,
}

/// The bytes a reference token appends: `len` single-byte copies, each
/// read `off` positions back from the end of the output *as it grows*.
pub open spec fn ref_expand(acc: Seq<u8>, off: int, len: int) -> Seq<u8>
    decreases len,
{
    if len <= 0 {
        acc
    } else {
        ref_expand(acc.push(acc[acc.len() - off]), off, len - 1)
    }
}

/// Replays the token bytes `data` against the already-decoded output
/// `acc`: the meaning of the stream after the header.
pub open spec fn decode_tokens(data: Seq<u8>, acc: Seq<u8>) -> Result<Seq<u8>, DecodeError>
    decreases data.len(),
{
    if data.len() == 0 {
        Ok(acc)
    } else if data[0] == TOKEN_LITERAL {
        if data.len() < 2 {
            Err(DecodeError::TruncatedToken)
        } else {
            decode_tokens(data.skip(2), acc.push(data[1]))
        }
    } else if data[0] == TOKEN_REFERENCE {
        if data.len() < 5 {
            Err(DecodeError::TruncatedToken)
        } else {
            let off = le16(data[1], data[2]);
            let len = le16(data[3], data[4]);
            if !(1 <= off <= acc.len()) {
                Err(DecodeError::BadOffset)
            } else {
                decode_tokens(data.skip(5), ref_expand(acc, off, len))
            }
        }
    } else {
        Err(DecodeError::BadTokenKind)
    }
}

/// The meaning of a whole compressed stream: header validation, then the
/// token replay.  The two window parameters in the header are advisory and
/// are not enforced while decoding.
pub open spec fn decode_spec(data: Seq<u8>) -> Result<Seq<u8>, DecodeError> {
    if data.len() < 5 {
        Err(DecodeError::TruncatedHeader)
    } else if !(data[0] == 0x4C && data[1] == 0x5A && data[2] == 0x37 && data[3] == 0x37 && data[4]
        == 0x52) {
        Err(DecodeError::BadMagic)
    } else if data.len() < HEADER_LEN {
        Err(DecodeError::TruncatedHeader)
    } else {
        decode_tokens(data.skip(HEADER_LEN as int), Seq::empty())
    }
}

/// Reconstructs the original bytes from a compressed stream, or reports
/// the first corruption found.
pub fn decompress(data: &[u8]) -> (r: Result<Vec<u8>, DecodeError>)
    ensures
        r matches Ok(out) ==> decode_spec(data@) == Ok::<Seq<u8>, DecodeError>(out@),
        r matches Err(e) ==> decode_spec(data@) == Err::<Seq<u8>, DecodeError>(e),
{
    let n = data.len();
    if n < 5 {
        return Err(DecodeError::TruncatedHeader);
    }
    if !(data[0] == 0x4C && data[1] == 0x5A && data[2] == 0x37 && data[3] == 0x37 && data[4]
        == 0x52) {
        return Err(DecodeError::BadMagic);
    }
    if n < HEADER_LEN {
        return Err(DecodeError::TruncatedHeader);
    }
    let mut out: Vec<u8> = Vec::new();
    let mut i: usize = HEADER_LEN;
    while i < n
        invariant
            HEADER_LEN <= i <= n,
            n == data@.len(),
            decode_spec(data@) == decode_tokens(data@.skip(HEADER_LEN as int), Seq::empty()),
            decode_tokens(data@.skip(HEADER_LEN as int), Seq::empty()) == decode_tokens(
                data@.skip(i as int),
                out@,
            ),
        decreases n - i,
    {
        let ghost rest = data@.skip(i as int);
        assert(rest.len() == n - i);
        assert(rest[0] == data@[i as int]);
        let kind = data[i];
        if kind == TOKEN_LITERAL {
            if n - i < 2 {
                proof {
                    assert(decode_tokens(rest, out@) == Err::<Seq<u8>, DecodeError>(
                        DecodeError::TruncatedToken,
                    ));
                }
                return Err(DecodeError::TruncatedToken);
            }
            assert(rest[1] == data@[i + 1]);
            out.push(data[i + 1]);
            proof {
                assert(rest.skip(2) =~= data@.skip(i + 2));
            }
            i += 2;
        } else if kind == TOKEN_REFERENCE {
            if n - i < 5 {
                proof {
                    assert(decode_tokens(rest, out@) == Err::<Seq<u8>, DecodeError>(
                        DecodeError::TruncatedToken,
                    ));
                }
                return Err(DecodeError::TruncatedToken);
            }
            assert(rest[1] == data@[i + 1] && rest[2] == data@[i + 2] && rest[3] == data@[i + 3]
                && rest[4] == data@[i + 4]);
            let offset: usize = data[i + 1] as usize + 256 * (data[i + 2] as usize);
            let length: usize = data[i + 3] as usize + 256 * (data[i + 4] as usize);
            assert(offset == le16(data@[i + 1], data@[i + 2]));
            assert(length == le16(data@[i + 3], data@[i + 4]));
            if offset == 0 || offset > out.len() {
                proof {
                    assert(decode_tokens(rest, out@) == Err::<Seq<u8>, DecodeError>(
                        DecodeError::BadOffset,
                    ));
                }
                return Err(DecodeError::BadOffset);
            }
            let ghost acc0 = out@;
            let mut j: usize = 0;
            while j < length
                invariant
                    j <= length,
                    out@.len() == acc0.len() + j,
                    1 <= offset <= acc0.len(),
                    ref_expand(acc0, offset as int, length as int) == ref_expand(
                        out@,
                        offset as int,
                        (length - j) as int,
                    ),
                decreases length - j,
            {
                let b = out[out.len() - offset];
                out.push(b);
                j += 1;
            }
            proof {
                assert(out@ == ref_expand(acc0, offset as int, length as int));
                assert(rest.skip(5) =~= data@.skip(i + 5));
            }
            i += 5;
        } else {
            proof {
                assert(decode_tokens(rest, out@) == Err::<Seq<u8>, DecodeError>(
                    DecodeError::BadTokenKind,
                ));
            }
            return Err(DecodeError::BadTokenKind);
        }
    }
    proof {
        assert(data@.skip(i as int) =~= Seq::<u8>::empty());
        assert(decode_tokens(Seq::<u8>::empty(), out@) == Ok::<Seq<u8>, DecodeError>(out@));
    }
    Ok(out)
}

} // verus!

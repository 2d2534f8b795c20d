//! The sliding-window match finder: for a position in the input, the
//! longest run of bytes that already occurred inside the trailing window,
//! found by an exhaustive left-to-right scan with a deterministic
//! tie-break (the first candidate reaching the best length wins).

use vstd::prelude::*;

verus! {

/// First input position the window covers at `pos`: `max(0, pos - window_size)`.
pub open spec fn window_start(pos: int, window_size: int) -> int {
    if pos >= window_size {
        pos - window_size
    } else {
        0
    }
}

/// Longest usable match at `pos`: no longer than `max_match_len` and never
/// past the end of the input.
pub open spec fn match_cap(input: Seq<u8>, pos: int, max_match_len: int) -> int {
    if max_match_len <= input.len() - pos {
        max_match_len
    } else {
        input.len() - pos
    }
}

/// Length of the common prefix of the byte runs starting at `candidate` and
/// at `pos`, capped at `cap`.
pub open spec fn common_prefix_len(input: Seq<u8>, candidate: int, pos: int, cap: int) -> int
    decreases cap,
{
    if cap <= 0 {
        0
    } else if input[candidate] == input[pos] {
        1 + common_prefix_len(input, candidate + 1, pos + 1, cap - 1)
    } else {
        0
    }
}

/// The common prefix length is between 0 and the cap.
pub proof fn lemma_common_prefix_len_bounds(input: Seq<u8>, candidate: int, pos: int, cap: int)
    ensures
        0 <= common_prefix_len(input, candidate, pos, cap),
        cap >= 0 ==> common_prefix_len(input, candidate, pos, cap) <= cap,
    decreases cap,
{
    if cap > 0 && input[candidate] == input[pos] {
        lemma_common_prefix_len_bounds(input, candidate + 1, pos + 1, cap - 1);
    }
}

/// Every position under the common prefix length holds equal bytes in the
/// two runs.
pub proof fn lemma_common_prefix_len_matches(input: Seq<u8>, candidate: int, pos: int, cap: int)
    ensures
        forall|j: int|
            0 <= j < common_prefix_len(input, candidate, pos, cap) ==> input[candidate + j] == (
            #[trigger] input[pos + j]),
    decreases cap,
{
    if cap > 0 && input[candidate] == input[pos] {
        lemma_common_prefix_len_matches(input, candidate + 1, pos + 1, cap - 1);
        assert forall|j: int|
            0 <= j < common_prefix_len(input, candidate, pos, cap) implies input[candidate + j] == (
        #[trigger] input[pos + j]) by {
            if j > 0 {
                assert(input[candidate + 1 + (j - 1)] == input[pos + 1 + (j - 1)]);
            }
        }
    }
}

/// The left-to-right scan over candidates in `[candidate, pos)`, carrying
/// the best `(offset, length)` seen so far; only a strictly greater length
/// replaces the current best.
pub open spec fn scan_from(
    input: Seq<u8>,
    candidate: int,
    pos: int,
    cap: int,
    best_offset: int,
    best_length: int,
) -> (int, int)
    decreases pos - candidate,
{
    if candidate >= pos {
        (best_offset, best_length)
    } else {
        let len = common_prefix_len(input, candidate, pos, cap);
        if len > best_length {
            scan_from(input, candidate + 1, pos, cap, pos - candidate, len)
        } else {
            scan_from(input, candidate + 1, pos, cap, best_offset, best_length)
        }
    }
}

/// The match the finder must return at `pos`: the full window scanned left
/// to right, starting from the empty best `(0, 0)`.
pub open spec fn best_match(input: Seq<u8>, pos: int, window_size: int, max_match_len: int) -> (
    int,
    int,
) {
    scan_from(
        input,
        window_start(pos, window_size),
        pos,
        match_cap(input, pos, max_match_len),
        0,
        0,
    )
}

/// What the scan guarantees of its result, given a sound accumulator: the
/// length never shrinks and stays under the cap, and any improved best is a
/// real common prefix at some candidate at or after `candidate`.
pub proof fn lemma_scan_from_props(
    input: Seq<u8>,
    candidate: int,
    pos: int,
    cap: int,
    best_offset: int,
    best_length: int,
)
    requires
        candidate <= pos,
        0 <= cap,
        0 <= best_length <= cap,
    ensures
        ({
            let (ro, rl) = scan_from(input, candidate, pos, cap, best_offset, best_length);
            &&& best_length <= rl <= cap
            &&& ((ro, rl) == (best_offset, best_length) || (best_length < rl && candidate <= pos
                - ro < pos && rl == common_prefix_len(input, pos - ro, pos, cap)))
        }),
    decreases pos - candidate,
{
    if candidate < pos {
        let len = common_prefix_len(input, candidate, pos, cap);
        lemma_common_prefix_len_bounds(input, candidate, pos, cap);
        if len > best_length {
            lemma_scan_from_props(input, candidate + 1, pos, cap, pos - candidate, len);
        } else {
            lemma_scan_from_props(input, candidate + 1, pos, cap, best_offset, best_length);
        }
    }
}

/// Everything callers need of `best_match`: the length is bounded by the
/// cap, a nonzero length comes with an offset inside the window, and the
/// matched runs hold equal bytes.
pub proof fn lemma_best_match_props(input: Seq<u8>, pos: int, window_size: int, max_match_len: int)
    requires
        0 <= pos <= input.len(),
        0 <= window_size,
        0 <= max_match_len,
    ensures
        ({
            let (off, len) = best_match(input, pos, window_size, max_match_len);
            &&& 0 <= len <= match_cap(input, pos, max_match_len)
            &&& pos + len <= input.len()
            &&& len <= max_match_len
            &&& (len == 0 ==> off == 0)
            &&& (len > 0 ==> 1 <= off <= pos && off <= window_size)
            &&& forall|j: int| 0 <= j < len ==> input[pos - off + j] == (#[trigger] input[pos + j])
        }),
{
    let start = window_start(pos, window_size);
    let cap = match_cap(input, pos, max_match_len);
    lemma_scan_from_props(input, start, pos, cap, 0, 0);
    let (off, len) = best_match(input, pos, window_size, max_match_len);
    if len > 0 {
        lemma_common_prefix_len_matches(input, pos - off, pos, cap);
    }
}

/// Counts how many bytes the runs starting at `candidate` and `pos` have in
/// common, reading no further than `max_len` bytes and never past the end
/// of the input.
pub fn compute_match_length(input: &[u8], candidate: usize, pos: usize, max_len: usize) -> (len:
    usize)
    requires
        candidate < pos <= input@.len(),
    ensures
        len == common_prefix_len(
            input@,
            candidate as int,
            pos as int,
            match_cap(input@, pos as int, max_len as int),
        ),
{
    let n = input.len();
    let remaining = n - pos;
    let max_possible = if max_len < remaining {
        max_len
    } else {
        remaining
    };
    let ghost cap = match_cap(input@, pos as int, max_len as int);
    assert(max_possible == cap);
    let mut length: usize = 0;
    while length < max_possible && input[candidate + length] == input[pos + length]
        invariant
            candidate < pos <= input@.len(),
            n == input@.len(),
            0 <= length <= max_possible,
            max_possible == cap,
            pos + max_possible <= n,
            common_prefix_len(input@, candidate as int, pos as int, cap) == length
                + common_prefix_len(
                input@,
                candidate + length as int,
                pos + length as int,
                cap - length,
            ),
        decreases max_possible - length,
    {
        length += 1;
    }
    proof {
        lemma_common_prefix_len_bounds(
            input@,
            candidate + length as int,
            pos + length as int,
            cap - length,
        );
    }
    length
}

/// Scans every candidate in the trailing window for the longest match at
/// `pos`, returning its `(offset, length)`; ties in length keep the first
/// candidate found, and `(0, 0)` means the window holds no match at all.
pub fn find_longest_match(input: &[u8], pos: usize, window_size: usize, max_match_len: usize) -> (r:
    (usize, usize))
    requires
        pos <= input@.len(),
    ensures
        (r.0 as int, r.1 as int) == best_match(
            input@,
            pos as int,
            window_size as int,
            max_match_len as int,
        ),
        r.1 <= max_match_len,
        pos + r.1 <= input@.len(),
        r.1 == 0 ==> r.0 == 0,
        r.1 > 0 ==> 1 <= r.0 <= pos && r.0 <= window_size,
        forall|j: int| 0 <= j < r.1 ==> input@[pos - r.0 + j] == (#[trigger] input@[pos + j]),
{
    let mut best_offset: usize = 0;
    let mut best_length: usize = 0;
    let start = if pos >= window_size {
        pos - window_size
    } else {
        0
    };
    let ghost cap = match_cap(input@, pos as int, max_match_len as int);
    let mut candidate = start;
    while candidate < pos
        invariant
            start <= candidate <= pos <= input@.len(),
            start == window_start(pos as int, window_size as int),
            cap == match_cap(input@, pos as int, max_match_len as int),
            best_offset <= pos,
            best_length <= cap,
            scan_from(
                input@,
                candidate as int,
                pos as int,
                cap,
                best_offset as int,
                best_length as int,
            ) == best_match(input@, pos as int, window_size as int, max_match_len as int),
        decreases pos - candidate,
    {
        let length = compute_match_length(input, candidate, pos, max_match_len);
        proof {
            lemma_common_prefix_len_bounds(input@, candidate as int, pos as int, cap);
        }
        if length > best_length {
            best_length = length;
            best_offset = pos - candidate;
        }
        candidate += 1;
    }
    proof {
        lemma_best_match_props(input@, pos as int, window_size as int, max_match_len as int);
    }
    (best_offset, best_length)
}

} // verus!

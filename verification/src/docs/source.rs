//! Rust source as bytes: what is code, where a body ends, where an item stands.
//!
//! Brace matching skips comments, char literals, lifetimes and plain, byte and
//! raw strings, so that an embedded script with unbalanced braces does not
//! disturb it.

use vstd::prelude::*;
use vstd::utf8::{
    is_char_boundary, is_char_boundary_iff_not_is_continuation_byte,
    is_char_boundary_start_end_of_seq, length_of_first_scalar, pop_first_scalar, valid_utf8,
    valid_utf8_concat, valid_utf8_split,
};

use crate::bytes::{lemma_ascii_boundaries, lemma_slice_valid};

verus! {

// ---------------------------------------------------------------------------
// Lexical elements that are no code
// ---------------------------------------------------------------------------

/// The first position of `b` at or after `i`, or the length of `s`.
pub open spec fn byte_pos(s: Seq<u8>, i: int, b: u8) -> int
    decreases s.len() - i,
{
    if i >= s.len() {
        s.len() as int
    } else if s[i] == b {
        i
    } else {
        byte_pos(s, i + 1, b)
    }
}

/// The position behind the first `*/` at or after `i`, or the length of `s`.
pub open spec fn comment_close(s: Seq<u8>, i: int) -> int
    decreases s.len() - i,
{
    if i + 1 >= s.len() {
        s.len() as int
    } else if s[i] == 42 && s[i + 1] == 47 {
        i + 2
    } else {
        comment_close(s, i + 1)
    }
}

/// The first position at or after `i` that holds no `#`.
pub open spec fn hash_end(s: Seq<u8>, i: int) -> int
    decreases s.len() - i,
{
    if i < s.len() && s[i] == 35 {
        hash_end(s, i + 1)
    } else {
        i
    }
}

/// Whether every byte of `s[from..to]` that exists is a `#`.
pub open spec fn all_hashes(s: Seq<u8>, from: int, to: int) -> bool {
    forall|j: int| from <= j < to && j < s.len() ==> #[trigger] s[j] == 35
}

/// The position behind the quote that, followed by `hashes` times `#`, closes a
/// raw string whose text begins at `i`; or the length of `s`.
pub open spec fn raw_close(s: Seq<u8>, i: int, hashes: int) -> int
    decreases s.len() - i,
{
    if i >= s.len() {
        s.len() as int
    } else if s[i] == 34 && all_hashes(s, i + 1, i + 1 + hashes) {
        if i + 1 + hashes <= s.len() {
            i + 1 + hashes
        } else {
            s.len() as int
        }
    } else {
        raw_close(s, i + 1, hashes)
    }
}

/// The position behind the quote that closes a string whose text begins at `i`;
/// or the length of `s`. A backslash takes the next byte with it.
pub open spec fn string_close(s: Seq<u8>, i: int) -> int
    decreases s.len() + 1 - i,
{
    if i >= s.len() {
        s.len() as int
    } else if s[i] == 92 {
        string_close(s, i + 2)
    } else if s[i] == 34 {
        i + 1
    } else {
        string_close(s, i + 1)
    }
}

/// Where the `#`s of a raw string that begins at `i` start: behind `r` or `br`.
pub open spec fn raw_hashes(s: Seq<u8>, i: int) -> Option<int> {
    if s[i] == 114 {
        Some(i + 1)
    } else if s[i] == 98 && i + 1 < s.len() && s[i + 1] == 114 {
        Some(i + 2)
    } else {
        None
    }
}

/// Whether a raw string begins at `i`.
pub open spec fn opens_raw(s: Seq<u8>, i: int) -> bool {
    match raw_hashes(s, i) {
        Some(k) => hash_end(s, k) < s.len() && s[hash_end(s, k)] == 34,
        None => false,
    }
}

/// The end of the comment or string that begins at `i`, or `i` where none does.
pub open spec fn noncode_end(s: Seq<u8>, i: int) -> int {
    if s[i] == 47 && i + 1 < s.len() && s[i + 1] == 47 {
        byte_pos(s, i, 10)
    } else if s[i] == 47 && i + 1 < s.len() && s[i + 1] == 42 {
        comment_close(s, i + 2)
    } else if opens_raw(s, i) {
        let k = raw_hashes(s, i)->0;
        raw_close(s, hash_end(s, k) + 1, hash_end(s, k) - k)
    } else if s[i] == 34 {
        string_close(s, i + 1)
    } else if s[i] == 98 && i + 1 < s.len() && s[i + 1] == 34 {
        string_close(s, i + 2)
    } else {
        i
    }
}

pub proof fn lemma_byte_pos(s: Seq<u8>, i: int, b: u8)
    requires
        0 <= i <= s.len(),
    ensures
        i <= byte_pos(s, i, b) <= s.len(),
        byte_pos(s, i, b) < s.len() ==> s[byte_pos(s, i, b)] == b,
        forall|j: int| i <= j < byte_pos(s, i, b) ==> s[j] != b,
    decreases s.len() - i,
{
    if i < s.len() && s[i] != b {
        lemma_byte_pos(s, i + 1, b);
    }
}

pub proof fn lemma_comment_close(s: Seq<u8>, i: int)
    requires
        0 <= i,
    ensures
        comment_close(s, i) <= s.len(),
        i <= s.len() ==> i <= comment_close(s, i),
        comment_close(s, i) < s.len() ==> s[comment_close(s, i) - 1] == 47,
    decreases s.len() - i,
{
    if i + 1 < s.len() && !(s[i] == 42 && s[i + 1] == 47) {
        lemma_comment_close(s, i + 1);
    }
}

pub proof fn lemma_hash_end(s: Seq<u8>, i: int)
    requires
        0 <= i <= s.len(),
    ensures
        i <= hash_end(s, i) <= s.len(),
    decreases s.len() - i,
{
    if i < s.len() && s[i] == 35 {
        lemma_hash_end(s, i + 1);
    }
}

pub proof fn lemma_raw_close(s: Seq<u8>, i: int, hashes: int)
    requires
        0 <= i <= s.len(),
        0 <= hashes,
    ensures
        i <= raw_close(s, i, hashes) <= s.len(),
        raw_close(s, i, hashes) < s.len() ==> s[raw_close(s, i, hashes) - 1] == 34 || s[raw_close(
            s,
            i,
            hashes,
        ) - 1] == 35,
        raw_close(s, i, hashes) < s.len() ==> i < raw_close(s, i, hashes),
    decreases s.len() - i,
{
    if i < s.len() {
        if s[i] == 34 && all_hashes(s, i + 1, i + 1 + hashes) {
            if hashes > 0 && i + 1 + hashes <= s.len() {
                assert(s[i + hashes] == 35);
            }
        } else {
            lemma_raw_close(s, i + 1, hashes);
        }
    }
}

pub proof fn lemma_string_close(s: Seq<u8>, i: int)
    requires
        0 <= i,
    ensures
        string_close(s, i) <= s.len(),
        i <= s.len() ==> i <= string_close(s, i),
        string_close(s, i) < s.len() ==> s[string_close(s, i) - 1] == 34,
    decreases s.len() + 1 - i,
{
    if i < s.len() {
        if s[i] == 92 {
            lemma_string_close(s, i + 2);
        } else if s[i] != 34 {
            lemma_string_close(s, i + 1);
        }
    }
}

/// A comment or string lies in the source and ends before the end of it only
/// behind an ASCII byte or in front of a line feed.
pub proof fn lemma_noncode_end(s: Seq<u8>, i: int)
    requires
        0 <= i < s.len(),
    ensures
        i <= noncode_end(s, i) <= s.len(),
        noncode_end(s, i) > i ==> s[i] < 128,
        i < noncode_end(s, i) < s.len() ==> s[noncode_end(s, i) - 1] < 128 || s[noncode_end(
            s,
            i,
        )] < 128,
{
    if s[i] == 47 && i + 1 < s.len() && s[i + 1] == 47 {
        lemma_byte_pos(s, i, 10);
    } else if s[i] == 47 && i + 1 < s.len() && s[i + 1] == 42 {
        lemma_comment_close(s, i + 2);
    } else if opens_raw(s, i) {
        let k = raw_hashes(s, i)->0;
        lemma_hash_end(s, k);
        lemma_raw_close(s, hash_end(s, k) + 1, hash_end(s, k) - k);
    } else if s[i] == 34 {
        lemma_string_close(s, i + 1);
    } else if s[i] == 98 && i + 1 < s.len() && s[i + 1] == 34 {
        lemma_string_close(s, i + 2);
    }
}

fn find_byte(src: &[u8], from: usize, b: u8) -> (r: usize)
    requires
        from <= src.len(),
    ensures
        r == byte_pos(src@, from as int, b),
        from <= r <= src.len(),
{
    let mut i: usize = from;
    while i < src.len() && src[i] != b
        invariant
            from <= i <= src.len(),
            byte_pos(src@, i as int, b) == byte_pos(src@, from as int, b),
        decreases src.len() - i,
    {
        i = i + 1;
    }
    i
}

fn find_comment_close(src: &[u8], from: usize) -> (r: usize)
    requires
        from <= src.len(),
    ensures
        r == comment_close(src@, from as int),
{
    let n: usize = src.len();
    let mut i: usize = from;
    while i < n && n - i > 1
        invariant
            from <= i <= n,
            n == src@.len(),
            comment_close(src@, i as int) == comment_close(src@, from as int),
        decreases n - i,
    {
        if src[i] == 42 && src[i + 1] == 47 {
            return i + 2;
        }
        i = i + 1;
    }
    n
}

fn find_hash_end(src: &[u8], from: usize) -> (r: usize)
    requires
        from <= src.len(),
    ensures
        r == hash_end(src@, from as int),
        from <= r <= src.len(),
{
    let mut i: usize = from;
    while i < src.len() && src[i] == 35
        invariant
            from <= i <= src.len(),
            hash_end(src@, i as int) == hash_end(src@, from as int),
        decreases src.len() - i,
    {
        i = i + 1;
    }
    i
}

/// Whether `hashes` times `#` follow at `from`, as far as the source reaches.
fn hashes_follow(src: &[u8], from: usize, hashes: usize) -> (r: bool)
    requires
        from <= src.len(),
    ensures
        r == all_hashes(src@, from as int, from + hashes),
{
    let mut k: usize = 0;
    while k < hashes && src.len() - from > k
        invariant
            k <= hashes,
            from + k <= src.len(),
            forall|j: int| from <= j < from + k ==> #[trigger] src@[j] == 35,
        decreases hashes - k,
    {
        if src[from + k] != 35 {
            assert(src@[from + k] != 35);
            return false;
        }
        k = k + 1;
    }
    true
}

fn find_raw_close(src: &[u8], from: usize, hashes: usize) -> (r: usize)
    requires
        from <= src.len(),
    ensures
        r == raw_close(src@, from as int, hashes as int),
{
    let n: usize = src.len();
    let mut i: usize = from;
    while i < n
        invariant
            from <= i <= n,
            n == src@.len(),
            raw_close(src@, i as int, hashes as int) == raw_close(
                src@,
                from as int,
                hashes as int,
            ),
        decreases n - i,
    {
        if src[i] == 34 && hashes_follow(src, i + 1, hashes) {
            if hashes <= n - (i + 1) {
                return i + 1 + hashes;
            }
            return n;
        }
        i = i + 1;
    }
    n
}

fn find_string_close(src: &[u8], from: usize) -> (r: usize)
    requires
        from <= src.len(),
    ensures
        r == string_close(src@, from as int),
{
    let n: usize = src.len();
    let mut i: usize = from;
    while i < n
        invariant
            from <= i <= n,
            n == src@.len(),
            string_close(src@, i as int) == string_close(src@, from as int),
        decreases n - i,
    {
        if src[i] == 92 {
            if n - i < 2 {
                assert(string_close(src@, i + 2) == n);
                return n;
            }
            i = i + 2;
        } else if src[i] == 34 {
            return i + 1;
        } else {
            i = i + 1;
        }
    }
    n
}

/// The end of the comment or string that begins at `i`, or `i` where none does.
fn find_noncode_end(src: &[u8], i: usize) -> (r: usize)
    requires
        i < src.len(),
    ensures
        r == noncode_end(src@, i as int),
        i <= r <= src.len(),
{
    proof {
        lemma_noncode_end(src@, i as int);
    }
    let n: usize = src.len();
    let c: u8 = src[i];
    let more: bool = n - i > 1;
    if c == 47 && more && src[i + 1] == 47 {
        return find_byte(src, i, 10);
    }
    if c == 47 && more && src[i + 1] == 42 {
        return find_comment_close(src, i + 2);
    }
    if c == 114 || (c == 98 && more && src[i + 1] == 114) {
        let k: usize = if c == 114 {
            i + 1
        } else {
            i + 2
        };
        let q: usize = find_hash_end(src, k);
        if q < n && src[q] == 34 {
            return find_raw_close(src, q + 1, q - k);
        }
    }
    if c == 34 {
        return find_string_close(src, i + 1);
    }
    if c == 98 && more && src[i + 1] == 34 {
        return find_string_close(src, i + 2);
    }
    i
}

// ---------------------------------------------------------------------------
// Brace matching
// ---------------------------------------------------------------------------

/// The end of the char literal or lifetime tick that stands at `i`. An escape
/// takes the next byte with it and reaches to the next tick; a tick with no
/// literal behind it is one byte.
pub open spec fn tick_end(s: Seq<u8>, i: int) -> int {
    if i + 2 < s.len() && s[i + 1] == 92 {
        if byte_pos(s, i + 3, 39) < s.len() {
            byte_pos(s, i + 3, 39) + 1
        } else {
            s.len() as int
        }
    } else if i + 2 < s.len() && s[i + 2] == 39 {
        i + 3
    } else {
        i + 1
    }
}

/// How far the lexical element at `i` reaches: a comment, a string, a char
/// literal, or one byte of code.
pub open spec fn element_end(s: Seq<u8>, i: int) -> int {
    if noncode_end(s, i) > i {
        noncode_end(s, i)
    } else if s[i] == 39 {
        tick_end(s, i)
    } else {
        i + 1
    }
}

/// The brace at `i` counts: it is code.
pub open spec fn is_brace(s: Seq<u8>, i: int) -> bool {
    noncode_end(s, i) == i && (s[i] == 123 || s[i] == 125)
}

/// Every element is at least one byte long and lies in the source.
pub proof fn lemma_element_end(s: Seq<u8>, i: int)
    requires
        0 <= i < s.len(),
    ensures
        i < element_end(s, i) <= s.len(),
        is_brace(s, i) ==> element_end(s, i) == i + 1,
{
    lemma_noncode_end(s, i);
    if i + 2 < s.len() {
        lemma_byte_pos(s, i + 3, 39);
    }
}

/// The position behind the `}` that closes the outermost of `depth` open braces,
/// reading on from `i`; where none is open, that of the next `{`.
pub open spec fn close_from(s: Seq<u8>, i: int, depth: int) -> Option<int>
    decreases s.len() - i,
{
    proof {
        if 0 <= i < s.len() {
            lemma_element_end(s, i);
        }
    }
    if i < 0 || i >= s.len() {
        None
    } else if is_brace(s, i) && s[i] == 123 {
        close_from(s, i + 1, depth + 1)
    } else if is_brace(s, i) {
        if depth == 1 {
            Some(i + 1)
        } else if depth > 1 {
            close_from(s, i + 1, depth - 1)
        } else {
            close_from(s, i + 1, depth)
        }
    } else {
        close_from(s, element_end(s, i), depth)
    }
}

/// The position behind the `}` that closes the first `{` at or after `start`.
pub open spec fn body_end(s: Seq<u8>, start: int) -> Option<int> {
    close_from(s, start, 0)
}

/// Finds the position just behind the `}` that closes the first `{` at or after `start`.
pub fn match_body(src: &[u8], start: usize) -> (r: Option<usize>)
    ensures
        match r {
            Some(e) => body_end(src@, start as int) == Some(e as int),
            None => body_end(src@, start as int) is None,
        },
        r is Some ==> start < r->0 <= src.len() && src@[r->0 - 1] == 125,
{
    let n: usize = src.len();
    let mut i: usize = start;
    let mut depth: usize = 0;
    while i < n
        invariant
            start <= i,
            i <= n || i == start,
            n == src@.len(),
            depth <= i - start,
            close_from(src@, i as int, depth as int) == body_end(src@, start as int),
        decreases n - i,
    {
        proof {
            lemma_element_end(src@, i as int);
            if i + 2 < n {
                lemma_byte_pos(src@, i + 3, 39);
            }
        }
        let c: u8 = src[i];
        let e: usize = find_noncode_end(src, i);
        if e > i {
            i = e;
            continue;
        }
        if c == 39 {
            if n - i > 2 && src[i + 1] == 92 {
                let k: usize = find_byte(src, i + 3, 39);
                i = if k < n {
                    k + 1
                } else {
                    n
                };
                continue;
            }
            if n - i > 2 && src[i + 2] == 39 {
                i = i + 3;
                continue;
            }
            i = i + 1;
            continue;
        }
        if c == 123 {
            depth = depth + 1;
        } else if c == 125 {
            if depth == 1 {
                return Some(i + 1);
            }
            if depth > 1 {
                depth = depth - 1;
            }
        }
        i = i + 1;
    }
    None
}

// ---------------------------------------------------------------------------
// Blanking
// ---------------------------------------------------------------------------

/// A byte that is no code, blanked: line feeds stay.
pub open spec fn blank_byte(b: u8) -> u8 {
    if b == 10 {
        b
    } else {
        32
    }
}

/// The bytes of `s[from..to]`, blanked.
pub open spec fn blank_range(s: Seq<u8>, from: int, to: int) -> Seq<u8> {
    Seq::new((to - from) as nat, |k: int| blank_byte(s[from + k]))
}

/// The end of the element at `i` that blanking removes, or `i`: a comment, a
/// string, or a char literal of one byte.
pub open spec fn blank_end(s: Seq<u8>, i: int) -> int {
    if noncode_end(s, i) > i {
        noncode_end(s, i)
    } else if s[i] == 39 && i + 2 < s.len() && s[i + 2] == 39 {
        i + 3
    } else {
        i
    }
}

/// `s` from `i` on, with every comment, string and one-byte char literal blanked.
pub open spec fn blanked_from(s: Seq<u8>, i: int) -> Seq<u8>
    decreases s.len() - i,
{
    proof {
        if 0 <= i < s.len() {
            lemma_noncode_end(s, i);
        }
    }
    if i < 0 || i >= s.len() {
        seq![]
    } else if blank_end(s, i) > i {
        blank_range(s, i, blank_end(s, i)) + blanked_from(s, blank_end(s, i))
    } else {
        seq![s[i]] + blanked_from(s, i + 1)
    }
}

/// `s` with everything that is no code blanked.
pub open spec fn blanked(s: Seq<u8>) -> Seq<u8> {
    blanked_from(s, 0)
}

/// Blanks comments, strings and char literals, keeping every offset.
pub fn blank_noncode(src: &[u8]) -> (r: Vec<u8>)
    ensures
        r@ == blanked(src@),
{
    let n: usize = src.len();
    let mut out: Vec<u8> = Vec::new();
    let mut i: usize = 0;
    assert(out@ + blanked_from(src@, 0) =~= blanked(src@));
    while i < n
        invariant
            i <= n == src@.len(),
            out@ + blanked_from(src@, i as int) == blanked(src@),
        decreases n - i,
    {
        let mut e: usize = find_noncode_end(src, i);
        if e == i && src[i] == 39 && n - i > 2 && src[i + 2] == 39 {
            e = i + 3;
        }
        let ghost before = out@;
        if e > i {
            let mut k: usize = i;
            while k < e
                invariant
                    i <= k <= e <= n == src@.len(),
                    out@ == before + blank_range(src@, i as int, k as int),
                decreases e - k,
            {
                let b: u8 = if src[k] == 10 {
                    10
                } else {
                    32
                };
                out.push(b);
                k = k + 1;
                assert(out@ =~= before + blank_range(src@, i as int, k as int));
            }
            assert(out@ + blanked_from(src@, e as int) =~= before + blanked_from(src@, i as int));
            i = e;
        } else {
            out.push(src[i]);
            assert(out@ + blanked_from(src@, i + 1) =~= before + blanked_from(src@, i as int));
            i = i + 1;
        }
    }
    assert(out@ + blanked_from(src@, n as int) =~= out@);
    out
}

// ---------------------------------------------------------------------------
// Laws
// ---------------------------------------------------------------------------

/// What the braces from `i` to the element that begins at `end` add to the depth.
pub open spec fn net_depth(s: Seq<u8>, i: int, end: int) -> int
    decreases s.len() - i,
{
    proof {
        if 0 <= i < s.len() {
            lemma_element_end(s, i);
        }
    }
    if i < 0 || i >= end || i >= s.len() {
        0
    } else {
        (if is_brace(s, i) {
            if s[i] == 123 {
                1int
            } else {
                -1
            }
        } else {
            0
        }) + net_depth(s, element_end(s, i), end)
    }
}

/// The first `{` at or behind `i` that counts.
pub open spec fn first_open(s: Seq<u8>, i: int) -> Option<int>
    decreases s.len() - i,
{
    proof {
        if 0 <= i < s.len() {
            lemma_element_end(s, i);
        }
    }
    if i < 0 || i >= s.len() {
        None
    } else if is_brace(s, i) && s[i] == 123 {
        Some(i)
    } else {
        first_open(s, element_end(s, i))
    }
}

/// Whether an element begins at `p`, reading on from `i`.
pub open spec fn reads(s: Seq<u8>, i: int, p: int) -> bool
    decreases s.len() - i,
{
    proof {
        if 0 <= i < s.len() {
            lemma_element_end(s, i);
        }
    }
    i == p || (0 <= i < s.len() && i < p && reads(s, element_end(s, i), p))
}

/// From where braces are open, the one that is found closes all of them, and
/// none before it does.
proof fn lemma_close_balances(s: Seq<u8>, i: int, depth: int)
    requires
        depth >= 1,
        close_from(s, i, depth) is Some,
    ensures
        0 <= i < close_from(s, i, depth)->0 <= s.len(),
        depth + net_depth(s, i, close_from(s, i, depth)->0) == 0,
        s[close_from(s, i, depth)->0 - 1] == 125,
        forall|p: int|
            #[trigger] reads(s, i, p) && p < close_from(s, i, depth)->0 ==> depth + net_depth(
                s,
                i,
                p,
            ) >= 1,
    decreases s.len() - i,
{
    lemma_element_end(s, i);
    let e = close_from(s, i, depth)->0;
    let next = element_end(s, i);
    let after = if is_brace(s, i) {
        if s[i] == 123 {
            depth + 1
        } else {
            depth - 1
        }
    } else {
        depth
    };
    if after == 0 {
        assert(net_depth(s, i + 1, i + 1) == 0);
    } else {
        lemma_close_balances(s, next, after);
    }
    assert forall|p: int| #[trigger] reads(s, i, p) && p < e implies depth + net_depth(s, i, p)
        >= 1 by {
        if i < p {
            assert(reads(s, next, p));
            if after == 0 {
                lemma_reads_on(s, next, p);
            }
        }
    }
}

/// Reading goes forward.
proof fn lemma_reads_on(s: Seq<u8>, i: int, p: int)
    requires
        reads(s, i, p),
    ensures
        i <= p,
{
}

/// A body that `match_body` finds ends with the `}` that closes the first `{` at
/// or behind its start: between the two as many braces open as close, and
/// nowhere before the last one is that so.
pub proof fn law_body_closes_the_first_brace(s: Seq<u8>, start: int)
    requires
        body_end(s, start) is Some,
    ensures
        ({
            let e = body_end(s, start)->0;
            let o = first_open(s, start)->0;
            &&& first_open(s, start) is Some
            &&& 0 <= start <= o < e <= s.len()
            &&& s[o] == 123 && s[e - 1] == 125
            &&& net_depth(s, o, e) == 0
            &&& forall|p: int| #[trigger] reads(s, o + 1, p) && p < e ==> net_depth(s, o, p) >= 1
        }),
    decreases s.len() - start,
{
    lemma_element_end(s, start);
    if is_brace(s, start) && s[start] == 123 {
        let e = body_end(s, start)->0;
        lemma_close_balances(s, start + 1, 1);
        assert forall|p: int| #[trigger] reads(s, start + 1, p) && p < e implies net_depth(
            s,
            start,
            p,
        ) >= 1 by {
            lemma_reads_on(s, start + 1, p);
        }
    } else {
        law_body_closes_the_first_brace(s, element_end(s, start));
    }
}

/// What reads a source from `i` on does not see what stands before: each of the
/// searches moves with the source.
proof fn lemma_searches_move(s: Seq<u8>, k: int, i: int, b: u8, hashes: int)
    requires
        0 <= k <= s.len(),
        0 <= i,
        0 <= hashes,
    ensures
        byte_pos(s, k + i, b) == k + byte_pos(s.skip(k), i, b),
        comment_close(s, k + i) == k + comment_close(s.skip(k), i),
        hash_end(s, k + i) == k + hash_end(s.skip(k), i),
        raw_close(s, k + i, hashes) == k + raw_close(s.skip(k), i, hashes),
        string_close(s, k + i) == k + string_close(s.skip(k), i),
    decreases s.len() + 1 - k - i,
{
    let t = s.skip(k);
    if k + i < s.len() {
        assert(t[i] == s[k + i]);
        lemma_searches_move(s, k, i + 1, b, hashes);
        lemma_searches_move(s, k, i + 2, b, hashes);
        assert(all_hashes(s, k + i + 1, k + i + 1 + hashes) == all_hashes(
            t,
            i + 1,
            i + 1 + hashes,
        )) by {
            if all_hashes(s, k + i + 1, k + i + 1 + hashes) {
                assert forall|j: int| i + 1 <= j < i + 1 + hashes && j < t.len() implies
                    #[trigger] t[j] == 35 by {
                    assert(s[k + j] == 35);
                }
            }
            if all_hashes(t, i + 1, i + 1 + hashes) {
                assert forall|j: int|
                    k + i + 1 <= j < k + i + 1 + hashes && j < s.len() implies
                    #[trigger] s[j] == 35 by {
                    assert(t[j - k] == 35);
                }
            }
        }
    }
}

/// An element moves with the source.
proof fn lemma_element_moves(s: Seq<u8>, k: int, i: int)
    requires
        0 <= k,
        0 <= i,
        k + i < s.len(),
    ensures
        element_end(s, k + i) == k + element_end(s.skip(k), i),
        is_brace(s, k + i) == is_brace(s.skip(k), i),
{
    let t = s.skip(k);
    assert(t[i] == s[k + i]);
    if i + 1 < t.len() {
        assert(t[i + 1] == s[k + i + 1]);
    }
    if i + 2 < t.len() {
        assert(t[i + 2] == s[k + i + 2]);
    }
    lemma_searches_move(s, k, i, 10, 0);
    lemma_searches_move(s, k, i + 1, 10, 0);
    lemma_searches_move(s, k, i + 2, 10, 0);
    lemma_searches_move(s, k, i + 3, 39, 0);
    match raw_hashes(t, i) {
        Some(h) => {
            let q = hash_end(t, h);
            lemma_hash_end(t, h);
            if q < t.len() {
                assert(t[q] == s[k + q]);
                lemma_searches_move(s, k, q + 1, 10, q - h);
            }
        },
        None => {},
    }
}

/// Matching moves with the source.
proof fn lemma_close_moves(s: Seq<u8>, k: int, i: int, depth: int)
    requires
        0 <= k <= s.len(),
        0 <= i,
    ensures
        close_from(s, k + i, depth) == (match close_from(s.skip(k), i, depth) {
            Some(e) => Some(k + e),
            None => None,
        }),
    decreases s.len() - k - i,
{
    if k + i < s.len() {
        let t = s.skip(k);
        assert(t[i] == s[k + i]);
        lemma_element_moves(s, k, i);
        lemma_element_end(t, i);
        let next = element_end(t, i);
        lemma_close_moves(s, k, next, depth);
        lemma_close_moves(s, k, next, depth + 1);
        lemma_close_moves(s, k, next, depth - 1);
    }
}

/// Matching from `start` on does not see what stands before: the body is found
/// in the rest of the source, and moved.
pub proof fn law_matching_looks_forward(s: Seq<u8>, start: int)
    requires
        0 <= start <= s.len(),
    ensures
        body_end(s, start) == (match body_end(s.skip(start), 0) {
            Some(e) => Some(start + e),
            None => None,
        }),
{
    lemma_close_moves(s, start, 0, 0);
}

/// A brace that is found lies behind where reading began.
proof fn lemma_close_lies(s: Seq<u8>, i: int, depth: int)
    requires
        close_from(s, i, depth) is Some,
    ensures
        0 <= i < close_from(s, i, depth)->0 <= s.len(),
        s[close_from(s, i, depth)->0 - 1] == 125,
    decreases s.len() - i,
{
    lemma_element_end(s, i);
    let next = element_end(s, i);
    if !is_brace(s, i) {
        lemma_close_lies(s, next, depth);
    } else if s[i] == 123 {
        lemma_close_lies(s, next, depth + 1);
    } else if depth > 1 {
        lemma_close_lies(s, next, depth - 1);
    } else if depth != 1 {
        lemma_close_lies(s, next, depth);
    }
}

/// A search that ends before `e` does not see what stands behind `e`.
proof fn lemma_searches_stop(s: Seq<u8>, e: int, i: int, b: u8, hashes: int)
    requires
        0 <= i,
        0 <= e <= s.len(),
        0 <= hashes,
    ensures
        byte_pos(s, i, b) < e ==> byte_pos(s.take(e), i, b) == byte_pos(s, i, b),
        comment_close(s, i) < e ==> comment_close(s.take(e), i) == comment_close(s, i),
        raw_close(s, i, hashes) < e ==> raw_close(s.take(e), i, hashes) == raw_close(
            s,
            i,
            hashes,
        ),
        string_close(s, i) < e ==> string_close(s.take(e), i) == string_close(s, i),
        i <= e ==> hash_end(s.take(e), i) == (if hash_end(s, i) < e {
            hash_end(s, i)
        } else {
            e
        }),
    decreases s.len() + 1 - i,
{
    let u = s.take(e);
    if i < e {
        assert(u[i] == s[i]);
        if i + 1 < e {
            assert(u[i + 1] == s[i + 1]);
        }
        lemma_searches_stop(s, e, i + 1, b, hashes);
        lemma_searches_stop(s, e, i + 2, b, hashes);
        lemma_comment_close(s, i);
        lemma_string_close(s, i);
        lemma_hash_end(s, i);
        if raw_close(s, i, hashes) < e {
            lemma_raw_needs(s, i, hashes);
            lemma_all_hashes_stop(s, e, i + 1, i + 1 + hashes);
        }
    } else if i <= s.len() {
        lemma_byte_pos(s, i, b);
        lemma_comment_close(s, i);
        lemma_raw_close(s, i, hashes);
        lemma_string_close(s, i);
        lemma_hash_end(s, i);
    }
}

/// A raw string that is closed has room for its quote and its `#`s.
proof fn lemma_raw_needs(s: Seq<u8>, i: int, hashes: int)
    requires
        0 <= i,
        0 <= hashes,
        raw_close(s, i, hashes) < s.len(),
    ensures
        i + 1 + hashes <= raw_close(s, i, hashes),
    decreases s.len() - i,
{
    if i < s.len() && !(s[i] == 34 && all_hashes(s, i + 1, i + 1 + hashes)) {
        lemma_raw_needs(s, i + 1, hashes);
    }
}

/// A run of `#`s before `e` does not see what stands behind `e`.
proof fn lemma_all_hashes_stop(s: Seq<u8>, e: int, from: int, to: int)
    requires
        0 <= from,
        to <= e <= s.len(),
    ensures
        all_hashes(s.take(e), from, to) == all_hashes(s, from, to),
{
    let u = s.take(e);
    if all_hashes(u, from, to) {
        assert forall|j: int| from <= j < to && j < s.len() implies #[trigger] s[j] == 35 by {
            assert(u[j] == 35);
        }
    }
    if all_hashes(s, from, to) {
        assert forall|j: int| from <= j < to && j < u.len() implies #[trigger] u[j] == 35 by {
            assert(s[j] == 35);
        }
    }
}

/// An element that ends before `e` is one too where the source stops at `e`.
proof fn lemma_element_stops(s: Seq<u8>, e: int, i: int)
    requires
        0 <= i < e <= s.len(),
        element_end(s, i) < e || (i == e - 1 && s[i] == 125),
    ensures
        element_end(s.take(e), i) == element_end(s, i),
        is_brace(s.take(e), i) == is_brace(s, i),
{
    let u = s.take(e);
    lemma_element_end(s, i);
    lemma_noncode_end(s, i);
    assert(u[i] == s[i]);
    if i + 1 < e {
        assert(u[i + 1] == s[i + 1]);
        if i + 2 < e {
            assert(u[i + 2] == s[i + 2]);
            lemma_byte_pos(s, i + 3, 39);
        }
        lemma_searches_stop(s, e, i, 10, 0);
        lemma_searches_stop(s, e, i + 1, 10, 0);
        lemma_searches_stop(s, e, i + 2, 10, 0);
        lemma_searches_stop(s, e, i + 3, 39, 0);
        match raw_hashes(s, i) {
            Some(h) => {
                let q = hash_end(s, h);
                lemma_hash_end(s, h);
                lemma_searches_stop(s, e, h, 10, 0);
                if opens_raw(s, i) {
                    lemma_raw_close(s, q + 1, q - h);
                    assert(u[q] == s[q]);
                    lemma_searches_stop(s, e, q + 1, 10, q - h);
                } else if q < e {
                    assert(u[q] == s[q]);
                }
            },
            None => {},
        }
    }
}

/// A brace that is found is found too where the source stops behind it.
proof fn lemma_close_stops(s: Seq<u8>, i: int, depth: int)
    requires
        close_from(s, i, depth) is Some,
    ensures
        close_from(s.take(close_from(s, i, depth)->0), i, depth) == close_from(s, i, depth),
    decreases s.len() - i,
{
    let e = close_from(s, i, depth)->0;
    let u = s.take(e);
    lemma_close_lies(s, i, depth);
    lemma_element_end(s, i);
    assert(u[i] == s[i]);
    let next = element_end(s, i);
    if is_brace(s, i) && s[i] == 125 && depth == 1 {
        lemma_element_stops(s, e, i);
    } else {
        let after = if !is_brace(s, i) {
            depth
        } else if s[i] == 123 {
            depth + 1
        } else if depth > 1 {
            depth - 1
        } else {
            depth
        };
        lemma_close_lies(s, next, after);
        lemma_element_stops(s, e, i);
        lemma_close_stops(s, next, after);
    }
}

/// A body does not depend on what stands behind it: it is found too where the
/// source stops with it. It holds at least its two braces.
pub proof fn law_a_body_stands_alone(s: Seq<u8>, start: int)
    requires
        body_end(s, start) is Some,
    ensures
        body_end(s.take(body_end(s, start)->0), start) == body_end(s, start),
        start + 2 <= body_end(s, start)->0 <= s.len(),
        s[body_end(s, start)->0 - 1] == 125,
        s.subrange(start, body_end(s, start)->0 - 1).contains(123u8),
{
    let e = body_end(s, start)->0;
    lemma_close_stops(s, start, 0);
    law_body_closes_the_first_brace(s, start);
    let o = first_open(s, start)->0;
    assert(s.subrange(start, e - 1)[o - start] == 123);
}

/// Braces in a comment, a string or a char literal count for nothing: matching
/// reads on behind it.
pub proof fn law_noncode_does_not_count(s: Seq<u8>, i: int, depth: int)
    requires
        0 <= i < s.len(),
        noncode_end(s, i) > i || s[i] == 39,
    ensures
        close_from(s, i, depth) == close_from(s, element_end(s, i), depth),
        element_end(s, i) == (if noncode_end(s, i) > i {
            noncode_end(s, i)
        } else {
            tick_end(s, i)
        }),
{
}

/// What blanking from `i` on does to each byte: one that stays begins nothing
/// that is blanked.
proof fn lemma_blanked_from(s: Seq<u8>, i: int)
    requires
        0 <= i <= s.len(),
    ensures
        blanked_from(s, i).len() == s.len() - i,
        forall|k: int|
            i <= k < s.len() ==> (#[trigger] blanked_from(s, i)[k - i] == s[k] && blank_end(s, k)
                == k) || blanked_from(s, i)[k - i] == blank_byte(s[k]),
    decreases s.len() - i,
{
    if i < s.len() {
        lemma_noncode_end(s, i);
        let e = if blank_end(s, i) > i {
            blank_end(s, i)
        } else {
            i + 1
        };
        lemma_blanked_from(s, e);
        assert forall|k: int| i <= k < s.len() implies (#[trigger] blanked_from(s, i)[k - i] == s[k]
            && blank_end(s, k) == k) || blanked_from(s, i)[k - i] == blank_byte(s[k]) by {
            if k >= e {
                assert(blanked_from(s, i)[k - i] == blanked_from(s, e)[k - e]);
            }
        }
    }
}

/// Blanking keeps every offset and every line: the result is as long as the
/// source, each byte stays or becomes a space, and line feeds are where they were.
pub proof fn law_blanking_keeps_offsets(s: Seq<u8>)
    ensures
        blanked(s).len() == s.len(),
        forall|k: int|
            0 <= k < s.len() ==> #[trigger] blanked(s)[k] == s[k] || blanked(s)[k] == 32,
        forall|k: int| 0 <= k < s.len() ==> (#[trigger] blanked(s)[k] == 10 <==> s[k] == 10),
{
    lemma_blanked_from(s, 0);
    assert forall|k: int| 0 <= k < s.len() implies (#[trigger] blanked(s)[k] == s[k] || blanked(
        s,
    )[k] == 32) && (blanked(s)[k] == 10 <==> s[k] == 10) by {
        assert(blanked_from(s, 0)[k - 0] == blanked(s)[k]);
    }
}

/// Where nothing begins that is blanked, blanking changes nothing.
proof fn lemma_nothing_to_blank(s: Seq<u8>, i: int)
    requires
        0 <= i <= s.len(),
        forall|k: int| 0 <= k < s.len() ==> #[trigger] blank_end(s, k) == k,
    ensures
        blanked_from(s, i) == s.skip(i),
    decreases s.len() - i,
{
    if i < s.len() {
        assert(blank_end(s, i) == i);
        lemma_nothing_to_blank(s, i + 1);
        assert(seq![s[i]] + s.skip(i + 1) =~= s.skip(i));
    } else {
        assert(blanked_from(s, i) =~= s.skip(i));
    }
}

/// Blanking leaves nothing to blank: no quote is left and no opener of a
/// comment, and blanking twice is blanking once.
pub proof fn law_blanking_twice_is_blanking_once(s: Seq<u8>)
    ensures
        forall|k: int| 0 <= k < s.len() ==> #[trigger] blanked(s)[k] != 34,
        forall|k: int|
            0 <= k < s.len() - 1 && #[trigger] blanked(s)[k] == 47 ==> blanked(s)[k + 1] != 47
                && blanked(s)[k + 1] != 42,
        blanked(blanked(s)) == blanked(s),
{
    lemma_blanked_from(s, 0);
    let t = blanked(s);
    assert forall|k: int| 0 <= k < s.len() implies (#[trigger] t[k] == s[k] && blank_end(s, k) == k)
        || t[k] == blank_byte(s[k]) by {
        assert(blanked_from(s, 0)[k - 0] == t[k]);
    }
    assert forall|k: int| 0 <= k < s.len() implies #[trigger] t[k] != 34 by {
        lemma_noncode_end(s, k);
        lemma_string_close(s, k + 1);
    }
    assert forall|k: int| 0 <= k < s.len() - 1 && #[trigger] t[k] == 47 implies t[k + 1] != 47
        && t[k + 1] != 42 by {
        lemma_noncode_end(s, k);
        lemma_byte_pos(s, k, 10);
        lemma_comment_close(s, k + 2);
    }
    assert forall|k: int| 0 <= k < t.len() implies #[trigger] blank_end(t, k) == k by {
        assert(t[k] != 34);
        match raw_hashes(t, k) {
            Some(h) => {
                lemma_hash_end(t, h);
                if hash_end(t, h) < t.len() {
                    assert(t[hash_end(t, h)] != 34);
                }
            },
            None => {},
        }
        if k + 1 < t.len() {
            assert(t[k + 1] != 34);
        }
        if k + 2 < t.len() {
            assert(t[k + 2] == s[k + 2] || t[k + 2] == blank_byte(s[k + 2]));
        }
    }
    lemma_nothing_to_blank(t, 0);
    assert(t.skip(0) =~= t);
}

/// A run of ASCII bytes is valid.
proof fn lemma_ascii_valid(b: Seq<u8>)
    requires
        forall|i: int| 0 <= i < b.len() ==> #[trigger] b[i] < 128,
    ensures
        valid_utf8(b),
    decreases b.len(),
{
    if b.len() > 0 {
        let c = b[0];
        assert(c < 128 ==> (c & 0x7f) as u32 == c as u32) by (bit_vector);
        assert(pop_first_scalar(b) =~= b.drop_first());
        lemma_ascii_valid(b.drop_first());
    }
}

proof fn lemma_blanked_valid(s: Seq<u8>, i: int)
    requires
        valid_utf8(s),
        0 <= i <= s.len(),
    ensures
        is_char_boundary(s, i) ==> valid_utf8(blanked_from(s, i)),
    decreases s.len() - i,
{
    if i < s.len() && is_char_boundary(s, i) {
        lemma_noncode_end(s, i);
        let e = blank_end(s, i);
        if e > i {
            if e == s.len() {
                is_char_boundary_start_end_of_seq(s);
            } else if s[e - 1] < 128 {
                lemma_ascii_boundaries(s, e - 1);
            } else {
                lemma_ascii_boundaries(s, e);
            }
            lemma_blanked_valid(s, e);
            lemma_ascii_valid(blank_range(s, i, e));
            valid_utf8_concat(blank_range(s, i, e), blanked_from(s, e));
        } else {
            valid_utf8_split(s, i);
            let t = s.subrange(i, s.len() as int);
            let j = i + length_of_first_scalar(t);
            let u = pop_first_scalar(t);
            if j == s.len() {
                is_char_boundary_start_end_of_seq(s);
            } else {
                assert(u[0] == s[j]);
                assert(valid_utf8(u));
                is_char_boundary_iff_not_is_continuation_byte(s, j);
            }
            if s[i] >= 128 {
                assert forall|k: int| i <= k < j implies #[trigger] s[k] >= 128 by {
                    assert(s[k] == t[k - i]);
                }
                lemma_code_run(s, i, j);
            } else {
                assert(s.subrange(i, j) =~= seq![s[i]]);
            }
            lemma_blanked_valid(s, j);
            lemma_slice_valid(s, i, j);
            valid_utf8_concat(s.subrange(i, j), blanked_from(s, j));
        }
    }
}

/// Bytes beyond ASCII outside comments and strings stay.
proof fn lemma_code_run(s: Seq<u8>, i: int, j: int)
    requires
        0 <= i <= j <= s.len(),
        forall|k: int| i <= k < j ==> #[trigger] s[k] >= 128,
    ensures
        blanked_from(s, i) == s.subrange(i, j) + blanked_from(s, j),
    decreases j - i,
{
    if i == j {
        assert(s.subrange(i, j) + blanked_from(s, j) =~= blanked_from(s, i));
    } else {
        lemma_noncode_end(s, i);
        lemma_code_run(s, i + 1, j);
        assert(s[i] >= 128);
        assert(s.subrange(i, j) + blanked_from(s, j) =~= seq![s[i]] + (s.subrange(i + 1, j)
            + blanked_from(s, j)));
    }
}

/// Blanking a text gives a text.
pub proof fn law_blanking_keeps_utf8(s: Seq<u8>)
    requires
        valid_utf8(s),
    ensures
        valid_utf8(blanked(s)),
{
    is_char_boundary_start_end_of_seq(s);
    lemma_blanked_valid(s, 0);
}

proof fn lemma_byte_pos_is(s: Seq<u8>, i: int, b: u8, p: int)
    requires
        0 <= i <= p <= s.len(),
        p < s.len() ==> s[p] == b,
        forall|j: int| i <= j < p ==> s[j] != b,
    ensures
        byte_pos(s, i, b) == p,
    decreases p - i,
{
    if i < p {
        lemma_byte_pos_is(s, i + 1, b, p);
    }
}

proof fn lemma_comment_close_is(s: Seq<u8>, i: int, p: int)
    requires
        0 <= i <= p,
        p + 1 < s.len(),
        s[p] == 42 && s[p + 1] == 47,
        forall|j: int| i <= j < p ==> !(#[trigger] s[j] == 42 && s[j + 1] == 47),
    ensures
        comment_close(s, i) == p + 2,
    decreases p - i,
{
    if i < p {
        assert(!(s[i] == 42 && s[i + 1] == 47));
        lemma_comment_close_is(s, i + 1, p);
    }
}

proof fn lemma_string_close_plain(s: Seq<u8>, i: int, p: int)
    requires
        0 <= i <= p <= s.len(),
        forall|j: int| i <= j < p ==> #[trigger] s[j] != 34 && s[j] != 92,
    ensures
        string_close(s, i) == string_close(s, p),
    decreases p - i,
{
    if i < p {
        assert(s[i] != 34 && s[i] != 92);
        lemma_string_close_plain(s, i + 1, p);
    }
}

proof fn lemma_hash_end_is(s: Seq<u8>, i: int, p: int)
    requires
        0 <= i <= p < s.len(),
        s[p] != 35,
        forall|j: int| i <= j < p ==> #[trigger] s[j] == 35,
    ensures
        hash_end(s, i) == p,
    decreases p - i,
{
    if i < p {
        assert(s[i] == 35);
        lemma_hash_end_is(s, i + 1, p);
    }
}

proof fn lemma_raw_close_is(s: Seq<u8>, i: int, p: int, hashes: int)
    requires
        0 <= i <= p < s.len(),
        s[p] == 34,
        0 <= hashes,
        p + 1 + hashes <= s.len(),
        forall|j: int| p < j < p + 1 + hashes ==> #[trigger] s[j] == 35,
        forall|j: int| i <= j < p ==> #[trigger] s[j] != 34,
    ensures
        raw_close(s, i, hashes) == p + 1 + hashes,
    decreases p - i,
{
    if i < p {
        assert(s[i] != 34);
        lemma_raw_close_is(s, i + 1, p, hashes);
    } else {
        assert(all_hashes(s, p + 1, p + 1 + hashes));
    }
}

/// A text of bytes without this one.
pub open spec fn lacks(a: Seq<u8>, b: u8) -> bool {
    forall|i: int| 0 <= i < a.len() ==> #[trigger] a[i] != b
}

/// A comment that runs to the end of its line ends in front of the line feed; a
/// block comment ends behind the first `*/`; code begins neither.
pub proof fn law_comments_end_where_they_end(a: Seq<u8>, rest: Seq<u8>, c: u8)
    ensures
        lacks(a, 10) ==> noncode_end(seq![47u8, 47] + a + seq![10u8] + rest, 0) == 2 + a.len(),
        (forall|i: int| 0 <= i < a.len() - 1 ==> !(#[trigger] a[i] == 42 && a[i + 1] == 47))
            ==> noncode_end(seq![47u8, 42] + a + seq![42u8, 47] + rest, 0) == 4 + a.len(),
        c != 47 && c != 34 && c != 114 && c != 98 ==> noncode_end(seq![c] + rest, 0) == 0,
{
    let s = seq![47u8, 47] + a + seq![10u8] + rest;
    let n = a.len() as int;
    if lacks(a, 10) {
        assert(s[0] == 47 && s[1] == 47 && s[2 + n] == 10);
        assert forall|j: int| 0 <= j < 2 + n implies s[j] != 10 by {
            if 2 <= j {
                assert(s[j] == a[j - 2]);
            }
        }
        lemma_byte_pos_is(s, 0, 10, 2 + n);
    }
    let t = seq![47u8, 42] + a + seq![42u8, 47] + rest;
    if forall|i: int| 0 <= i < a.len() - 1 ==> !(#[trigger] a[i] == 42 && a[i + 1] == 47) {
        assert(t[0] == 47 && t[1] == 42 && t[2 + n] == 42 && t[3 + n] == 47);
        assert forall|j: int| 2 <= j < 2 + n implies !(#[trigger] t[j] == 42 && t[j + 1]
            == 47) by {
            assert(t[j] == a[j - 2]);
            if j + 1 < 2 + n {
                assert(t[j + 1] == a[j - 1]);
            }
        }
        lemma_comment_close_is(t, 2, 2 + n);
    }
    assert((seq![c] + rest)[0] == c);
}

/// A string ends with the first quote that no backslash takes with it; a raw
/// string ends with the first quote that as many `#`s follow as stand before it.
pub proof fn law_strings_end_where_they_end(
    a: Seq<u8>,
    c: u8,
    b: Seq<u8>,
    hashes: Seq<u8>,
    rest: Seq<u8>,
)
    requires
        lacks(a, 34) && lacks(a, 92),
        lacks(b, 34) && lacks(b, 92),
        forall|i: int| 0 <= i < hashes.len() ==> #[trigger] hashes[i] == 35,
    ensures
        noncode_end(seq![34u8] + a + seq![34u8] + rest, 0) == 2 + a.len(),
        noncode_end(seq![98u8, 34] + a + seq![34u8] + rest, 0) == 3 + a.len(),
        noncode_end(seq![34u8] + a + seq![92u8, c] + b + seq![34u8] + rest, 0) == 4 + a.len()
            + b.len(),
        noncode_end(
            seq![114u8] + hashes + seq![34u8] + a + seq![34u8] + hashes + rest,
            0,
        ) == 3 + 2 * hashes.len() + a.len(),
{
    let n = a.len() as int;
    let m = b.len() as int;
    let s = seq![34u8] + a + seq![34u8] + rest;
    assert(s[0] == 34 && s[1 + n] == 34);
    assert forall|j: int| 1 <= j < 1 + n implies #[trigger] s[j] != 34 && s[j] != 92 by {
        assert(s[j] == a[j - 1]);
    }
    lemma_string_close_plain(s, 1, 1 + n);
    let t = seq![98u8, 34] + a + seq![34u8] + rest;
    assert(t[0] == 98 && t[1] == 34 && t[2 + n] == 34);
    assert forall|j: int| 2 <= j < 2 + n implies #[trigger] t[j] != 34 && t[j] != 92 by {
        assert(t[j] == a[j - 2]);
    }
    lemma_string_close_plain(t, 2, 2 + n);
    let u = seq![34u8] + a + seq![92u8, c] + b + seq![34u8] + rest;
    assert(u[0] == 34 && u[1 + n] == 92 && u[3 + n + m] == 34);
    assert forall|j: int| 1 <= j < 1 + n implies #[trigger] u[j] != 34 && u[j] != 92 by {
        assert(u[j] == a[j - 1]);
    }
    lemma_string_close_plain(u, 1, 1 + n);
    assert(string_close(u, 1 + n) == string_close(u, 3 + n));
    assert forall|j: int| 3 + n <= j < 3 + n + m implies #[trigger] u[j] != 34 && u[j] != 92 by {
        assert(u[j] == b[j - 3 - n]);
    }
    lemma_string_close_plain(u, 3 + n, 3 + n + m);
    let h = hashes.len() as int;
    let r = seq![114u8] + hashes + seq![34u8] + a + seq![34u8] + hashes + rest;
    assert(r[0] == 114 && r[1 + h] == 34 && r[2 + h + n] == 34);
    assert forall|j: int| 1 <= j < 1 + h implies #[trigger] r[j] == 35 by {
        assert(r[j] == hashes[j - 1]);
    }
    lemma_hash_end_is(r, 1, 1 + h);
    assert forall|j: int| 2 + h <= j < 2 + h + n implies #[trigger] r[j] != 34 by {
        assert(r[j] == a[j - 2 - h]);
    }
    assert forall|j: int| 2 + h + n < j < 3 + h + n + h implies #[trigger] r[j] == 35 by {
        assert(r[j] == hashes[j - 3 - h - n]);
    }
    lemma_raw_close_is(r, 2 + h, 2 + h + n, h);
}

/// A char literal is skipped whole, an escape in it too; the tick of a lifetime
/// is skipped alone.
pub proof fn law_char_literals_are_skipped(c: u8, a: Seq<u8>, rest: Seq<u8>)
    ensures
        c != 92 ==> tick_end(seq![39u8, c, 39] + rest, 0) == 3,
        lacks(a, 39) ==> tick_end(seq![39u8, 92, c] + a + seq![39u8] + rest, 0) == 4 + a.len(),
        c != 92 && (rest.len() == 0 || rest[0] != 39) ==> tick_end(seq![39u8, c] + rest, 0) == 1,
{
    let s = seq![39u8, c, 39] + rest;
    assert(s[0] == 39 && s[1] == c && s[2] == 39);
    let t = seq![39u8, 92, c] + a + seq![39u8] + rest;
    let n = a.len() as int;
    assert(t[0] == 39 && t[1] == 92 && t[3 + n] == 39);
    if lacks(a, 39) {
        assert forall|j: int| 3 <= j < 3 + n implies t[j] != 39 by {
            assert(t[j] == a[j - 3]);
        }
        lemma_byte_pos_is(t, 3, 39, 3 + n);
    }
    let u = seq![39u8, c] + rest;
    assert(u[1] == c);
    if rest.len() > 0 {
        assert(u[2] == rest[0]);
    }
}

/// What blanking does from some place on does not depend on what stands before.
proof fn lemma_blanking_moves(s: Seq<u8>, k: int, i: int)
    requires
        0 <= k <= s.len(),
        0 <= i,
    ensures
        blanked_from(s, k + i) == blanked_from(s.skip(k), i),
    decreases s.len() - k - i,
{
    if k + i < s.len() {
        let t = s.skip(k);
        assert(t[i] == s[k + i]);
        if i + 2 < t.len() {
            assert(t[i + 2] == s[k + i + 2]);
        }
        lemma_noncode_moves(s, k, i);
        lemma_noncode_end(t, i);
        let e = if blank_end(t, i) > i {
            blank_end(t, i)
        } else {
            i + 1
        };
        lemma_blanking_moves(s, k, e);
        if blank_end(t, i) > i {
            assert(blank_range(s, k + i, k + e) =~= blank_range(t, i, e));
        }
    }
}

/// Where a comment or a string ends does not depend on what stands before.
proof fn lemma_noncode_moves(s: Seq<u8>, k: int, i: int)
    requires
        0 <= k,
        0 <= i,
        k + i < s.len(),
    ensures
        noncode_end(s, k + i) == k + noncode_end(s.skip(k), i),
{
    let t = s.skip(k);
    assert(t[i] == s[k + i]);
    if i + 1 < t.len() {
        assert(t[i + 1] == s[k + i + 1]);
    }
    lemma_searches_move(s, k, i, 10, 0);
    lemma_searches_move(s, k, i + 1, 10, 0);
    lemma_searches_move(s, k, i + 2, 10, 0);
    match raw_hashes(t, i) {
        Some(h) => {
            let q = hash_end(t, h);
            lemma_hash_end(t, h);
            if q < t.len() {
                assert(t[q] == s[k + q]);
                lemma_searches_move(s, k, q + 1, 10, q - h);
            }
        },
        None => {},
    }
}

/// Blanking goes element by element. A comment, a string or a char literal of one
/// byte is blanked as far as it reaches, with its line feeds kept; any other byte
/// stays; and what follows is blanked as if it stood alone.
pub proof fn law_blanking_goes_element_by_element(s: Seq<u8>)
    requires
        s.len() > 0,
    ensures
        ({
            let n = noncode_end(s, 0);
            let literal = s.len() > 2 && s[0] == 39 && s[2] == 39;
            let e = if n > 0 {
                n
            } else if literal {
                3
            } else {
                1
            };
            &&& 0 < e <= s.len()
            &&& blanked(s).skip(e) == blanked(s.skip(e))
            &&& n > 0 || literal ==> forall|i: int|
                0 <= i < e ==> #[trigger] blanked(s)[i] == (if s[i] == 10 {
                    10u8
                } else {
                    32u8
                })
            &&& n == 0 && !literal ==> blanked(s)[0] == s[0]
        }),
{
    lemma_noncode_end(s, 0);
    let n = noncode_end(s, 0);
    let literal = s.len() > 2 && s[0] == 39 && s[2] == 39;
    let e = if n > 0 {
        n
    } else if literal {
        3
    } else {
        1
    };
    lemma_blanking_moves(s, e, 0);
    lemma_blanked_from(s, e);
    assert(blanked(s).skip(e) =~= blanked_from(s, e));
}

} // verus!

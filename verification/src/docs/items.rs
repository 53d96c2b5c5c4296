//! Where the items of a Rust source stand.

use vstd::prelude::*;
use vstd::utf8::{encode_utf8_valid_utf8, is_char_boundary, is_char_boundary_start_end_of_seq};

use crate::bytes::{byte_slice, lemma_ascii_boundaries, slice_text, utf8};
use crate::text::{begins, begins_with, trim, trimmed};

verus! {

/// A byte of a word: an ASCII letter, a digit or an underscore.
pub open spec fn word_byte(b: u8) -> bool {
    ||| 48 <= b <= 57
    ||| 65 <= b <= 90
    ||| 97 <= b <= 122
    ||| b == 95
}

/// Whether `b` belongs to a word.
pub fn is_word(b: u8) -> (r: bool)
    ensures
        r == word_byte(b),
{
    (48 <= b && b <= 57) || (65 <= b && b <= 90) || (97 <= b && b <= 122) || b == 95
}

// ---------------------------------------------------------------------------
// Declarations
// ---------------------------------------------------------------------------

/// Whether `s` holds the bytes `n` at `i`.
pub open spec fn bytes_at(s: Seq<u8>, n: Seq<u8>, i: int) -> bool {
    0 <= i && i + n.len() <= s.len() && s.subrange(i, i + n.len()) == n
}

/// The first position at or after `i` where `s` holds `n`.
pub open spec fn find_bytes(s: Seq<u8>, n: Seq<u8>, i: int) -> Option<int>
    decreases s.len() + 1 - i,
{
    if i < 0 || i + n.len() > s.len() {
        None
    } else if bytes_at(s, n, i) {
        Some(i)
    } else {
        find_bytes(s, n, i + 1)
    }
}

/// What stands at `p` for `len` bytes is not part of a longer word.
pub open spec fn stands_alone(s: Seq<u8>, p: int, len: int) -> bool {
    (p == 0 || !word_byte(s[p - 1])) && (p + len >= s.len() || !word_byte(s[p + len]))
}

/// The place of the `nth` occurrence of `n` that stands alone, reading from
/// `from`; each occurrence is read past whole.
pub open spec fn occurrence(s: Seq<u8>, n: Seq<u8>, from: int, nth: int) -> Option<int>
    decreases s.len() - from,
{
    proof {
        lemma_find_bytes(s, n, from);
    }
    match find_bytes(s, n, from) {
        Some(p) => if n.len() == 0 {
            None
        } else if stands_alone(s, p, n.len() as int) {
            if nth == 1 {
                Some(p)
            } else {
                occurrence(s, n, p + n.len(), nth - 1)
            }
        } else {
            occurrence(s, n, p + n.len(), nth)
        },
        None => None,
    }
}

/// A place that `find_bytes` finds holds the needle.
pub proof fn lemma_find_bytes(s: Seq<u8>, n: Seq<u8>, i: int)
    ensures
        find_bytes(s, n, i) is Some ==> i <= find_bytes(s, n, i)->0 && bytes_at(
            s,
            n,
            find_bytes(s, n, i)->0,
        ),
    decreases s.len() + 1 - i,
{
    if i < 0 || i + n.len() > s.len() {
    } else if !bytes_at(s, n, i) {
        lemma_find_bytes(s, n, i + 1);
    }
}

/// The text that declares `name`: the keyword, a space and the name.
pub open spec fn declaration(keyword: Seq<char>, name: Seq<char>) -> Seq<char> {
    keyword.push(' ') + name
}

/// The byte offset of the `nth` declaration of `name` by `keyword`.
pub open spec fn declared_at(
    src: Seq<char>,
    keyword: Seq<char>,
    name: Seq<char>,
    nth: int,
) -> Option<int> {
    occurrence(utf8(src), utf8(declaration(keyword, name)), 0, nth)
}

fn needle_at(s: &[u8], n: &[u8], i: usize) -> (r: bool)
    ensures
        r == bytes_at(s@, n@, i as int),
{
    if i > s.len() || s.len() - i < n.len() {
        return false;
    }
    let mut k: usize = 0;
    while k < n.len()
        invariant
            k <= n.len(),
            i + n.len() <= s.len(),
            forall|j: int| 0 <= j < k ==> s@[i + j] == n@[j],
        decreases n.len() - k,
    {
        if s[i + k] != n[k] {
            assert(s@.subrange(i as int, i + n@.len())[k as int] != n@[k as int]);
            return false;
        }
        k = k + 1;
    }
    assert(s@.subrange(i as int, i + n@.len()) =~= n@);
    true
}

/// The first offset at or after `from` where `s` holds `n`.
pub fn find_needle(s: &[u8], n: &[u8], from: usize) -> (r: Option<usize>)
    ensures
        match r {
            Some(i) => find_bytes(s@, n@, from as int) == Some(i as int),
            None => find_bytes(s@, n@, from as int) is None,
        },
        r is Some ==> from <= r->0 && r->0 + n.len() <= s.len(),
{
    let mut i: usize = from;
    while i <= s.len() && s.len() - i >= n.len()
        invariant
            from <= i,
            find_bytes(s@, n@, i as int) == find_bytes(s@, n@, from as int),
        decreases s.len() + 1 - i,
    {
        if needle_at(s, n, i) {
            return Some(i);
        }
        if i == s.len() {
            assert(find_bytes(s@, n@, i + 1) is None);
            return None;
        }
        i = i + 1;
    }
    None
}

/// Finds the byte offset of the `nth` declaration `keyword name` that is not
/// part of a longer word.
pub fn decl_pos(src: &str, keyword: &str, name: &str, nth: usize) -> (r: Option<usize>)
    ensures
        match r {
            Some(p) => declared_at(src@, keyword@, name@, nth as int) == Some(p as int),
            None => declared_at(src@, keyword@, name@, nth as int) is None,
        },
        r is Some ==> bytes_at(utf8(src@), utf8(declaration(keyword@, name@)), r->0 as int),
{
    let mut needle = String::new();
    needle.append(keyword);
    needle.push(' ');
    needle.append(name);
    assert(needle@ =~= declaration(keyword@, name@));
    let n: &[u8] = needle.as_str().as_bytes();
    let b: &[u8] = src.as_bytes();
    let ghost want = utf8(declaration(keyword@, name@));
    let mut left: usize = nth;
    let mut counting: bool = nth > 0;
    let mut from: usize = 0;
    if n.len() == 0 {
        return None;
    }
    loop
        invariant
            b@ == utf8(src@),
            n@ == want,
            want == utf8(declaration(keyword@, name@)),
            n.len() > 0,
            from <= b.len(),
            counting ==> left > 0 && declared_at(src@, keyword@, name@, nth as int) == occurrence(
                b@,
                n@,
                from as int,
                left as int,
            ),
            !counting ==> exists|k: int| #[trigger]
                occurrence(b@, n@, from as int, k) == declared_at(
                    src@,
                    keyword@,
                    name@,
                    nth as int,
                ) && k <= 0,
        decreases b.len() - from,
    {
        let ghost k0: int = if counting {
            left as int
        } else {
            choose|k: int| #[trigger]
                occurrence(b@, n@, from as int, k) == declared_at(
                    src@,
                    keyword@,
                    name@,
                    nth as int,
                ) && k <= 0
        };
        match find_needle(b, n, from) {
            None => {
                return None;
            },
            Some(p) => {
                proof {
                    lemma_find_bytes(b@, n@, from as int);
                }
                let end: usize = p + n.len();
                let alone: bool = (p == 0 || !is_word(b[p - 1])) && (end >= b.len() || !is_word(
                    b[end],
                ));
                assert(alone == stands_alone(b@, p as int, n@.len() as int));
                if alone {
                    if counting {
                        if left == 1 {
                            return Some(p);
                        }
                        left = left - 1;
                    }
                    assert(occurrence(b@, n@, end as int, k0 - 1) == occurrence(
                        b@,
                        n@,
                        from as int,
                        k0,
                    ));
                } else {
                    assert(occurrence(b@, n@, end as int, k0) == occurrence(
                        b@,
                        n@,
                        from as int,
                        k0,
                    ));
                }
                from = end;
            },
        }
    }
}

// ---------------------------------------------------------------------------
// Attributes and doc comments
// ---------------------------------------------------------------------------

/// Where the line that holds offset `p` begins.
pub open spec fn line_start(s: Seq<u8>, p: int) -> int
    decreases p,
{
    if p <= 0 {
        0
    } else if s[p - 1] == 10 {
        p
    } else {
        line_start(s, p - 1)
    }
}

/// A line that belongs to the item below it: an attribute or a doc comment.
pub open spec fn is_leading_line(line: Seq<char>) -> bool {
    let t = trim(line);
    begins(t, "#["@) || begins(t, "#!["@) || begins(t, "///"@) || begins(t, "//!"@)
}

/// Where the lines that belong to the item at line offset `start` begin.
pub open spec fn item_start(src: Seq<char>, start: int) -> int
    decreases start,
{
    proof {
        lemma_line_start(utf8(src), start - 1);
    }
    if start <= 0 || start > utf8(src).len() {
        start
    } else {
        let begin = line_start(utf8(src), start - 1);
        if is_leading_line(byte_slice(src, begin, start - 1)) {
            item_start(src, begin)
        } else {
            start
        }
    }
}

/// A line begins at the start of the source or behind a line feed.
pub proof fn lemma_line_start(s: Seq<u8>, p: int)
    ensures
        0 <= line_start(s, p),
        0 <= p ==> line_start(s, p) <= p,
        0 < line_start(s, p) ==> s[line_start(s, p) - 1] == 10,
    decreases p,
{
    if p > 0 && s[p - 1] != 10 {
        lemma_line_start(s, p - 1);
    }
}

fn find_line_start(s: &[u8], p: usize) -> (r: usize)
    requires
        p <= s.len(),
    ensures
        r == line_start(s@, p as int),
{
    let mut i: usize = p;
    while i > 0 && s[i - 1] != 10
        invariant
            i <= p <= s.len(),
            line_start(s@, i as int) == line_start(s@, p as int),
        decreases i,
    {
        i = i - 1;
    }
    i
}

/// Walks back from `decl` over the attribute and doc-comment lines above it.
pub fn expand_back(src: &str, decl: usize) -> (r: usize)
    requires
        decl <= utf8(src@).len(),
    ensures
        r == item_start(src@, line_start(utf8(src@), decl as int)),
        r <= decl,
        is_char_boundary(utf8(src@), r as int),
{
    let b: &[u8] = src.as_bytes();
    let mut start: usize = find_line_start(b, decl);
    proof {
        encode_utf8_valid_utf8(src@);
        is_char_boundary_start_end_of_seq(b@);
        lemma_line_start(b@, decl as int);
        if start > 0 {
            lemma_ascii_boundaries(b@, start - 1);
        }
    }
    while start > 0
        invariant
            start <= decl <= b.len(),
            b@ == utf8(src@),
            vstd::utf8::valid_utf8(b@),
            start > 0 ==> b@[start - 1] == 10,
            is_char_boundary(b@, start as int),
            is_char_boundary(b@, 0),
            item_start(src@, start as int) == item_start(src@, line_start(b@, decl as int)),
        decreases start,
    {
        let end: usize = start - 1;
        let begin: usize = find_line_start(b, end);
        proof {
            lemma_ascii_boundaries(b@, end as int);
            lemma_line_start(b@, end as int);
            if begin > 0 {
                lemma_ascii_boundaries(b@, begin - 1);
            }
        }
        let line = slice_text(src, begin, end);
        let t = trimmed(line.as_str());
        let keep: bool = begins_with(t.as_str(), "#[") || begins_with(t.as_str(), "#![")
            || begins_with(t.as_str(), "///") || begins_with(t.as_str(), "//!");
        if keep {
            start = begin;
        } else {
            return start;
        }
    }
    start
}

// ---------------------------------------------------------------------------
// Laws
// ---------------------------------------------------------------------------

/// An occurrence lies where reading has come to, holds the needle and stands alone.
proof fn lemma_occurrence(s: Seq<u8>, n: Seq<u8>, from: int, nth: int)
    ensures
        occurrence(s, n, from, nth) is Some ==> ({
            let p = occurrence(s, n, from, nth)->0;
            from <= p && bytes_at(s, n, p) && stands_alone(s, p, n.len() as int)
        }),
    decreases s.len() - from,
{
    lemma_find_bytes(s, n, from);
    match find_bytes(s, n, from) {
        Some(p) => {
            if n.len() > 0 {
                lemma_occurrence(s, n, p + n.len(), nth);
                lemma_occurrence(s, n, p + n.len(), nth - 1);
            }
        },
        None => {},
    }
}

/// Where there is a later occurrence, there is an earlier one, and it ends
/// before the later one begins.
proof fn lemma_occurrences_in_order(s: Seq<u8>, n: Seq<u8>, from: int, a: int, b: int)
    requires
        1 <= a < b,
        occurrence(s, n, from, b) is Some,
    ensures
        occurrence(s, n, from, a) is Some,
        occurrence(s, n, from, a)->0 + n.len() <= occurrence(s, n, from, b)->0,
    decreases s.len() - from,
{
    lemma_find_bytes(s, n, from);
    let p = find_bytes(s, n, from)->0;
    let next = p + n.len();
    if stands_alone(s, p, n.len() as int) {
        lemma_occurrence(s, n, next, b - 1);
        if a > 1 {
            lemma_occurrences_in_order(s, n, next, a - 1, b - 1);
        }
    } else {
        lemma_occurrences_in_order(s, n, next, a, b);
    }
}

/// Declarations are counted in order: before a later declaration stands each of
/// the earlier ones, whole.
pub proof fn law_later_declarations_come_later(
    src: Seq<char>,
    keyword: Seq<char>,
    name: Seq<char>,
    a: int,
    b: int,
)
    requires
        1 <= a < b,
        declared_at(src, keyword, name, b) is Some,
    ensures
        declared_at(src, keyword, name, a) is Some,
        declared_at(src, keyword, name, a)->0 + utf8(declaration(keyword, name)).len()
            <= declared_at(src, keyword, name, b)->0,
{
    lemma_occurrences_in_order(utf8(src), utf8(declaration(keyword, name)), 0, a, b);
}

/// What lies above an item begins with a line, and nothing above it belongs to
/// the item.
pub proof fn lemma_item_start(src: Seq<char>, start: int)
    requires
        0 <= start <= utf8(src).len(),
        start > 0 ==> utf8(src)[start - 1] == 10,
    ensures
        0 <= item_start(src, start) <= start,
        item_start(src, start) > 0 ==> utf8(src)[item_start(src, start) - 1] == 10,
        item_start(src, item_start(src, start)) == item_start(src, start),
    decreases start,
{
    if start > 0 {
        let begin = line_start(utf8(src), start - 1);
        lemma_line_start(utf8(src), start - 1);
        if is_leading_line(byte_slice(src, begin, start - 1)) {
            lemma_item_start(src, begin);
        }
    }
}

/// Walking back goes all the way: from where it ends, it goes no further.
pub proof fn law_walking_back_twice_is_walking_back_once(src: Seq<char>, decl: int)
    requires
        0 <= decl <= utf8(src).len(),
    ensures
        ({
            let r = item_start(src, line_start(utf8(src), decl));
            &&& 0 <= r <= decl
            &&& item_start(src, line_start(utf8(src), r)) == r
        }),
{
    lemma_line_start(utf8(src), decl);
    lemma_item_start(src, line_start(utf8(src), decl));
}

/// A declaration that is found is the keyword, a blank and the name, and no
/// letter, digit or underscore stands on either side of it.
pub proof fn law_declarations_stand_alone(
    src: Seq<char>,
    keyword: Seq<char>,
    name: Seq<char>,
    nth: int,
)
    ensures
        ({
            let b = utf8(src);
            let n = utf8(keyword + seq![' '] + name);
            match declared_at(src, keyword, name, nth) {
                Some(p) => {
                    &&& 0 <= p && p + n.len() <= b.len()
                    &&& b.subrange(p, p + n.len()) == n
                    &&& p > 0 ==> !is_word_byte(b[p - 1])
                    &&& p + n.len() < b.len() ==> !is_word_byte(b[p + n.len()])
                },
                None => true,
            }
        }),
{
    assert(declaration(keyword, name) =~= keyword + seq![' '] + name);
    lemma_occurrence(utf8(src), utf8(declaration(keyword, name)), 0, nth);
}

/// An ASCII letter, a digit or an underscore.
pub open spec fn is_word_byte(b: u8) -> bool {
    ('a' as int <= b <= 'z' as int) || ('A' as int <= b <= 'Z' as int) || ('0' as int <= b
        <= '9' as int) || b == '_' as int
}

/// The first declaration is missed only where there is none: where the text
/// holds the declaration standing alone, and nothing of it overlaps another
/// occurrence, it is counted.
pub proof fn law_declarations_are_not_missed(s: Seq<u8>, n: Seq<u8>, from: int, q: int)
    requires
        0 <= from <= q,
        n.len() > 0,
        bytes_at(s, n, q),
        stands_alone(s, q, n.len() as int),
        forall|x: int| q - n.len() < x < q && from <= x ==> !(#[trigger] bytes_at(s, n, x)),
    ensures
        occurrence(s, n, from, 1) matches Some(p) && p <= q,
    decreases s.len() - from,
{
    lemma_find_bytes(s, n, from);
    lemma_found_by(s, n, from, q);
    let p = find_bytes(s, n, from)->0;
    if !stands_alone(s, p, n.len() as int) {
        assert(p < q);
        assert(p <= q - n.len()) by {
            if p > q - n.len() {
                assert(!bytes_at(s, n, p));
            }
        }
        law_declarations_are_not_missed(s, n, (p + n.len()) as int, q);
    }
}

/// What the text holds is found, there or before.
proof fn lemma_found_by(s: Seq<u8>, n: Seq<u8>, from: int, q: int)
    requires
        0 <= from <= q,
        bytes_at(s, n, q),
    ensures
        find_bytes(s, n, from) matches Some(p) && p <= q,
    decreases q - from,
{
    if from < q && !bytes_at(s, n, from) {
        lemma_found_by(s, n, from + 1, q);
    }
}

/// A line that belongs to the item below it: an attribute or a doc comment.
pub open spec fn leads(line: Seq<char>) -> bool {
    let t = trim(line);
    begins(t, "#["@) || begins(t, "#!["@) || begins(t, "///"@) || begins(t, "//!"@)
}

/// Walking back takes the lines above an item as long as they are attributes or
/// doc comments, and no further: the line above the item belongs to it just when
/// it is one, and so on from that line.
pub proof fn law_items_take_their_lines_along(src: Seq<char>, start: int)
    requires
        0 < start <= utf8(src).len(),
    ensures
        ({
            let above = line_start(utf8(src), start - 1);
            &&& 0 <= above < start
            &&& above > 0 ==> utf8(src)[above - 1] == 10
            &&& forall|j: int| above <= j < start - 1 ==> #[trigger] utf8(src)[j] != 10
            &&& leads(byte_slice(src, above, start - 1)) ==> item_start(src, start) == item_start(
                src,
                above,
            )
            &&& !leads(byte_slice(src, above, start - 1)) ==> item_start(src, start) == start
            &&& item_start(src, 0) == 0
        }),
{
    lemma_line_start(utf8(src), start - 1);
    lemma_line_holds_no_feed(utf8(src), start - 1);
}

/// No line feed stands between a place and the beginning of its line.
proof fn lemma_line_holds_no_feed(s: Seq<u8>, p: int)
    ensures
        forall|j: int| line_start(s, p) <= j < p ==> #[trigger] s[j] != 10,
    decreases p,
{
    if p > 0 && s[p - 1] != 10 {
        lemma_line_holds_no_feed(s, p - 1);
    }
}

} // verus!

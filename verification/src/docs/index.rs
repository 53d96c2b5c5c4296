//! The functions that Rust sources define, and what each of them calls.

use vstd::prelude::*;
use vstd::utf8::{decode_utf8, decode_utf8_encode_utf8, encode_utf8_valid_utf8};

use crate::bytes::{
    boundary, byte_slice, lemma_ascii_boundaries, slice_text, sliceable, text_from_utf8, utf8,
};
use crate::docs::items::{
    bytes_at, expand_back, find_bytes, find_needle, item_start, lemma_find_bytes, lemma_item_start,
    lemma_line_start, line_start,
};
use crate::docs::patterns::{
    find_first, find_groups, find_ranges, groups_view, pattern_first, pattern_groups,
    pattern_ranges, pattern_replaced, replace_all,
};
use crate::docs::source::{
    blank_noncode, blanked, body_end, law_blanking_keeps_offsets, law_blanking_keeps_utf8,
    law_body_closes_the_first_brace, match_body,
};
use crate::text::{
    begins, behind, chars_of, cut_prefix, drop_front, find_chars, find_from,
    law_prefix_and_suffix_come_off, occurs, opt_text, same, text_of, trim, trimmed, without_front,
    Class,
};

verus! {

/// A list of generics that holds no other.
pub const GENERICS_PATTERN: &'static str = r"<[^<>]*>";

/// A name.
pub const NAME_PATTERN: &'static str = r"[A-Za-z_]\w*";

/// The header of an `impl` or a `trait`.
pub const OWNER_PATTERN: &'static str = r"\b(?:impl|trait)\b[^\n{;]*";

/// The head of a function.
pub const FN_PATTERN: &'static str = r"\bfn\s+([A-Za-z_]\w*)";

/// A call, with the receiver and the name as its groups.
pub const CALL_PATTERN: &'static str =
    r"(?:(\w+)\s*::\s*)?([A-Za-z_]\w*)\s*(?:::\s*<[^>]*>)?\s*\(";

/// A function that a source defines.
pub struct Def<S> {
    /// Its name.
    pub name: S,
    /// The type or trait that it belongs to.
    pub owner: Option<S>,
    /// The file that holds it.
    pub file: S,
    /// Its text, with the attributes and doc comments above it.
    pub text: S,
    /// Its body, braces and all.
    pub body: S,
}

impl Def<String> {
    /// The definition over the views of its texts.
    pub open spec fn seen(self) -> Def<Seq<char>> {
        Def {
            name: self.name@,
            owner: opt_text(self.owner),
            file: self.file@,
            text: self.text@,
            body: self.body@,
        }
    }
}

/// The views of definitions.
pub open spec fn defs(v: Seq<Def<String>>) -> Seq<Def<Seq<char>>> {
    Seq::new(v.len(), |i: int| v[i].seen())
}

/// A source with its comments, strings and char literals blanked.
pub open spec fn blank_text(src: Seq<char>) -> Seq<char> {
    decode_utf8(blanked(utf8(src)))
}

/// Blanks comments, strings and char literals, keeping every offset.
pub fn blank_source(src: &str) -> (r: String)
    ensures
        r@ == blank_text(src@),
        utf8(r@) == blanked(utf8(src@)),
        utf8(r@).len() == utf8(src@).len(),
{
    proof {
        encode_utf8_valid_utf8(src@);
        law_blanking_keeps_utf8(utf8(src@));
        law_blanking_keeps_offsets(utf8(src@));
    }
    let b = blank_noncode(src.as_bytes());
    text_from_utf8(b.as_slice())
}

// ---------------------------------------------------------------------------
// Owners
// ---------------------------------------------------------------------------

/// A header behind its first blanks and the keyword.
pub open spec fn header_rest(header: Seq<char>) -> Seq<char> {
    let h = drop_front(header, Class::Space);
    match behind(h, "impl"@) {
        Some(r) => r,
        None => match behind(h, "trait"@) {
            Some(r) => r,
            None => h,
        },
    }
}

/// The part of a header without generics that names the owner: what follows
/// the first ` for `, or all of it.
pub open spec fn owner_part(h: Seq<char>) -> Seq<char> {
    match find_from(h, " for "@, 0) {
        Some(i) => h.skip(i + 5),
        None => h,
    }
}

/// The owner that a header names, or none; `None` for a pattern that does not compile.
pub open spec fn header_owner(header: Seq<char>) -> Option<Option<Seq<char>>> {
    match pattern_replaced(GENERICS_PATTERN@, header_rest(header), ""@) {
        Some(h) => pattern_first(NAME_PATTERN@, owner_part(h)),
        None => None,
    }
}

/// Cuts the keyword off a header.
pub fn strip_keyword(header: &str) -> (r: String)
    ensures
        r@ == header_rest(header@),
{
    let h = without_front(header, Class::Space);
    match cut_prefix(h.as_str(), "impl") {
        Some(r) => r,
        None => match cut_prefix(h.as_str(), "trait") {
            Some(r) => r,
            None => h,
        },
    }
}

/// Takes the part of a header without generics that names the owner.
pub fn take_owner_part(h: &str) -> (r: String)
    ensures
        r@ == owner_part(h@),
{
    let v = chars_of(h);
    let mark = chars_of(" for ");
    proof {
        reveal_strlit(" for ");
    }
    match find_chars(&v, &mark, 0) {
        Some(i) => {
            let r = text_of(&v, i + 5, v.len());
            assert(r@ =~= h@.skip(i + 5));
            r
        },
        None => h.to_owned(),
    }
}

/// Reads the owner from the header of an `impl` or a `trait`.
pub fn owner_from_header(header: &str) -> (r: Option<Option<String>>)
    ensures
        match r {
            Some(o) => header_owner(header@) == Some(opt_text(o)),
            None => header_owner(header@) is None,
        },
{
    let h = strip_keyword(header);
    match replace_all(GENERICS_PATTERN, h.as_str(), "") {
        Some(plain) => {
            let part = take_owner_part(plain.as_str());
            find_first(NAME_PATTERN, part.as_str())
        },
        None => None,
    }
}

/// The first `byte` at or behind `from`.
pub open spec fn first_byte(b: Seq<u8>, byte: u8, from: int) -> Option<int> {
    find_bytes(b, seq![byte], from)
}

/// Finds the first `byte` at or behind `from`.
fn find_byte(b: &[u8], byte: u8, from: usize) -> (r: Option<usize>)
    ensures
        match r {
            Some(i) => first_byte(b@, byte, from as int) == Some(i as int) && from <= i < b.len()
                && b@[i as int] == byte,
            None => first_byte(b@, byte, from as int) is None,
        },
{
    let n: Vec<u8> = vec![byte];
    assert(n@ =~= seq![byte]);
    let r = find_needle(b, n.as_slice(), from);
    proof {
        lemma_find_bytes(b@, seq![byte], from as int);
        if r is Some {
            assert(b@.subrange(r->0 as int, r->0 + 1)[0] == seq![byte][0]);
        }
    }
    r
}

/// What becomes of one match: it is passed over, it cannot be cut out of the
/// source, or it gives a value.
pub enum Found<T> {
    Skip,
    Bad,
    Is(T),
}

/// The range that an `impl` or `trait` covers, and its owner.
pub open spec fn owner_range(src: Seq<char>, range: (usize, usize)) -> Found<
    (int, int, Option<Seq<char>>),
> {
    let (s, e) = (range.0 as int, range.1 as int);
    if first_byte(blanked(utf8(src)), 123, e) is None {
        Found::Skip
    } else {
        match body_end(utf8(src), s) {
            Some(end) => if sliceable(src, s, e) {
                match header_owner(byte_slice(src, s, e)) {
                    Some(o) => Found::Is((s, end, o)),
                    None => Found::Bad,
                }
            } else {
                Found::Bad
            },
            None => Found::Skip,
        }
    }
}

/// The ranges of the owners that the matches find.
pub open spec fn owner_ranges(src: Seq<char>, ranges: Seq<(usize, usize)>) -> Option<
    Seq<(int, int, Option<Seq<char>>)>,
>
    decreases ranges.len(),
{
    if ranges.len() == 0 {
        Some(seq![])
    } else {
        match owner_ranges(src, ranges.drop_last()) {
            Some(v) => match owner_range(src, ranges.last()) {
                Found::Skip => Some(v),
                Found::Bad => None,
                Found::Is(o) => Some(v.push(o)),
            },
            None => None,
        }
    }
}

/// The views of ranges with their owners.
pub open spec fn owned(v: Seq<(usize, usize, Option<String>)>) -> Seq<
    (int, int, Option<Seq<char>>),
> {
    Seq::new(v.len(), |i: int| (v[i].0 as int, v[i].1 as int, opt_text(v[i].2)))
}

/// Finds the range and the owner of one header.
fn find_owner(src: &str, blank: &str, range: (usize, usize)) -> (r: Found<
    (usize, usize, Option<String>),
>)
    requires
        utf8(blank@) == blanked(utf8(src@)),
    ensures
        match r {
            Found::Skip => owner_range(src@, range) is Skip,
            Found::Bad => owner_range(src@, range) is Bad,
            Found::Is(o) => owner_range(src@, range) == Found::Is(
                (o.0 as int, o.1 as int, opt_text(o.2)),
            ),
        },
{
    let (s, e) = range;
    if find_byte(blank.as_bytes(), 123, e).is_none() {
        return Found::Skip;
    }
    let b: &[u8] = src.as_bytes();
    match match_body(b, s) {
        Some(end) => {
            if s <= e && e <= b.len() && boundary(src, s) && boundary(src, e) {
                let header = slice_text(src, s, e);
                match owner_from_header(header.as_str()) {
                    Some(o) => Found::Is((s, end, o)),
                    None => Found::Bad,
                }
            } else {
                Found::Bad
            }
        },
        None => Found::Skip,
    }
}

/// Finds the ranges of the owners, given the matches of their headers.
fn find_owners(src: &str, blank: &str, ranges: &Vec<(usize, usize)>) -> (r: Option<
    Vec<(usize, usize, Option<String>)>,
>)
    requires
        utf8(blank@) == blanked(utf8(src@)),
    ensures
        match r {
            Some(v) => owner_ranges(src@, ranges@) == Some(owned(v@)),
            None => owner_ranges(src@, ranges@) is None,
        },
{
    let mut out: Vec<(usize, usize, Option<String>)> = Vec::new();
    let mut i: usize = 0;
    assert(ranges@.take(0) =~= seq![]);
    assert(owned(out@) =~= seq![]);
    while i < ranges.len()
        invariant
            i <= ranges.len(),
            utf8(blank@) == blanked(utf8(src@)),
            owner_ranges(src@, ranges@.take(i as int)) == Some(owned(out@)),
        decreases ranges.len() - i,
    {
        let ghost was = owned(out@);
        assert(ranges@.take(i + 1).drop_last() =~= ranges@.take(i as int));
        assert(ranges@.take(i + 1).last() == ranges@[i as int]);
        match find_owner(src, blank, ranges[i]) {
            Found::Skip => {},
            Found::Bad => {
                proof {
                    lemma_owner_ranges_fail(src@, ranges@, i + 1);
                }
                return None;
            },
            Found::Is(o) => {
                out.push(o);
                assert(owned(out@) =~= was.push((o.0 as int, o.1 as int, opt_text(o.2))));
            },
        }
        i = i + 1;
    }
    assert(ranges@.take(i as int) =~= ranges@);
    Some(out)
}

/// A failure among the first matches is one among all of them.
proof fn lemma_owner_ranges_fail(src: Seq<char>, ranges: Seq<(usize, usize)>, n: int)
    requires
        0 <= n <= ranges.len(),
        owner_ranges(src, ranges.take(n)) is None,
    ensures
        owner_ranges(src, ranges) is None,
    decreases ranges.len(),
{
    if n == ranges.len() {
        assert(ranges.take(n) =~= ranges);
    } else {
        assert(ranges.drop_last().take(n) =~= ranges.take(n));
        lemma_owner_ranges_fail(src, ranges.drop_last(), n);
    }
}

// ---------------------------------------------------------------------------
// Functions
// ---------------------------------------------------------------------------

/// The owner of what stands at `p`: that of the last range that holds it.
pub open spec fn owner_at(owners: Seq<(int, int, Option<Seq<char>>)>, p: int) -> Option<Seq<char>>
    decreases owners.len(),
{
    if owners.len() == 0 {
        None
    } else if owners.last().0 <= p < owners.last().1 {
        owners.last().2
    } else {
        owner_at(owners.drop_last(), p)
    }
}

/// The definition that a match of a function's head begins. A declaration
/// without a body is passed over.
pub open spec fn fn_def(
    file: Seq<char>,
    src: Seq<char>,
    owners: Seq<(int, int, Option<Seq<char>>)>,
    range: (usize, usize),
) -> Found<Def<Seq<char>>> {
    let (s, e) = (range.0 as int, range.1 as int);
    let blank = blanked(utf8(src));
    match first_byte(blank, 123, e) {
        Some(brace) => if first_byte(blank, 59, e) is Some && first_byte(blank, 59, e)->0 < brace {
            Found::Skip
        } else {
            match body_end(utf8(src), s) {
                Some(end) => if brace <= end && sliceable(blank_text(src), s + 3, e) {
                    Found::Is(
                        Def {
                            name: trim(byte_slice(blank_text(src), s + 3, e)),
                            owner: owner_at(owners, s),
                            file,
                            text: byte_slice(src, item_start(src, line_start(utf8(src), s)), end),
                            body: byte_slice(src, brace, end),
                        },
                    )
                } else {
                    Found::Bad
                },
                None => Found::Skip,
            }
        },
        None => Found::Skip,
    }
}

/// The definitions that the matches begin, in order; none where one of them
/// cannot be cut out of the source.
pub open spec fn fn_defs(
    file: Seq<char>,
    src: Seq<char>,
    owners: Seq<(int, int, Option<Seq<char>>)>,
    ranges: Seq<(usize, usize)>,
) -> Option<Seq<Def<Seq<char>>>>
    decreases ranges.len(),
{
    if ranges.len() == 0 {
        Some(seq![])
    } else {
        match fn_defs(file, src, owners, ranges.drop_last()) {
            Some(v) => match fn_def(file, src, owners, ranges.last()) {
                Found::Skip => Some(v),
                Found::Bad => None,
                Found::Is(d) => Some(v.push(d)),
            },
            None => None,
        }
    }
}

/// Finds the owner of what stands at `p`.
fn find_owner_at(owners: &Vec<(usize, usize, Option<String>)>, p: usize) -> (r: Option<String>)
    ensures
        opt_text(r) == owner_at(owned(owners@), p as int),
{
    let ghost all = owned(owners@);
    let mut i: usize = owners.len();
    assert(all.take(i as int) =~= all);
    while i > 0
        invariant
            i <= owners.len(),
            all == owned(owners@),
            owner_at(all.take(i as int), p as int) == owner_at(all, p as int),
        decreases i,
    {
        assert(all.take(i as int).drop_last() =~= all.take(i - 1));
        assert(all.take(i as int).last() == all[i - 1]);
        if owners[i - 1].0 <= p && p < owners[i - 1].1 {
            return match &owners[i - 1].2 {
                Some(o) => Some(o.clone()),
                None => None,
            };
        }
        i = i - 1;
    }
    None
}

/// Reads the definition that one match begins.
pub fn read_def(
    file: &str,
    src: &str,
    owners: &Vec<(usize, usize, Option<String>)>,
    range: (usize, usize),
) -> (r: Found<Def<String>>)
    requires
        range.0 <= range.1 <= utf8(src@).len(),
    ensures
        match r {
            Found::Skip => fn_def(file@, src@, owned(owners@), range) is Skip,
            Found::Bad => fn_def(file@, src@, owned(owners@), range) is Bad,
            Found::Is(d) => fn_def(file@, src@, owned(owners@), range) == Found::Is(d.seen()),
        },
{
    let (s, e) = range;
    let blank = blank_source(src);
    let bb: &[u8] = blank.as_str().as_bytes();
    let b: &[u8] = src.as_bytes();
    let brace: usize = match find_byte(bb, 123, e) {
        Some(i) => i,
        None => {
            return Found::Skip;
        },
    };
    match find_byte(bb, 59, e) {
        Some(semi) => {
            if semi < brace {
                return Found::Skip;
            }
        },
        None => {},
    }
    let end: usize = match match_body(b, s) {
        Some(end) => end,
        None => {
            return Found::Skip;
        },
    };
    if brace > end || e - s < 3 || !boundary(blank.as_str(), s + 3) || !boundary(blank.as_str(), e) {
        return Found::Bad;
    }
    let name = slice_text(blank.as_str(), s + 3, e);
    let start: usize = expand_back(src, s);
    proof {
        encode_utf8_valid_utf8(src@);
        law_blanking_keeps_offsets(utf8(src@));
        assert(blanked(utf8(src@))[brace as int] == 123);
        lemma_ascii_boundaries(utf8(src@), brace as int);
        lemma_ascii_boundaries(utf8(src@), end - 1);
    }
    Found::Is(
        Def {
            name: trimmed(name.as_str()),
            owner: find_owner_at(owners, s),
            file: file.to_owned(),
            text: slice_text(src, start, end),
            body: slice_text(src, brace, end),
        },
    )
}

/// Reads the definitions of a source, given the matches of the heads of its
/// functions and the ranges of their owners.
pub fn read_defs(
    file: &str,
    src: &str,
    owners: &Vec<(usize, usize, Option<String>)>,
    ranges: &Vec<(usize, usize)>,
) -> (r: Option<Vec<Def<String>>>)
    requires
        forall|i: int|
            0 <= i < ranges.len() ==> (#[trigger] ranges@[i]).0 <= ranges@[i].1 <= utf8(src@).len(),
    ensures
        match r {
            Some(v) => fn_defs(file@, src@, owned(owners@), ranges@) == Some(defs(v@)),
            None => fn_defs(file@, src@, owned(owners@), ranges@) is None,
        },
{
    let mut out: Vec<Def<String>> = Vec::new();
    let mut i: usize = 0;
    let ghost o = owned(owners@);
    assert(ranges@.take(0) =~= seq![]);
    assert(defs(out@) =~= seq![]);
    while i < ranges.len()
        invariant
            i <= ranges.len(),
            o == owned(owners@),
            forall|i: int|
                0 <= i < ranges.len() ==> (#[trigger] ranges@[i]).0 <= ranges@[i].1 <= utf8(
                    src@,
                ).len(),
            fn_defs(file@, src@, o, ranges@.take(i as int)) == Some(defs(out@)),
        decreases ranges.len() - i,
    {
        let ghost was = defs(out@);
        assert(ranges@.take(i + 1).drop_last() =~= ranges@.take(i as int));
        assert(ranges@.take(i + 1).last() == ranges@[i as int]);
        match read_def(file, src, owners, ranges[i]) {
            Found::Skip => {},
            Found::Bad => {
                proof {
                    lemma_fn_defs_fail(file@, src@, o, ranges@, i + 1);
                }
                return None;
            },
            Found::Is(d) => {
                out.push(d);
                assert(defs(out@) =~= was.push(d.seen()));
            },
        }
        i = i + 1;
    }
    assert(ranges@.take(i as int) =~= ranges@);
    Some(out)
}

/// A failure among the first matches is one among all of them.
proof fn lemma_fn_defs_fail(
    file: Seq<char>,
    src: Seq<char>,
    owners: Seq<(int, int, Option<Seq<char>>)>,
    ranges: Seq<(usize, usize)>,
    n: int,
)
    requires
        0 <= n <= ranges.len(),
        fn_defs(file, src, owners, ranges.take(n)) is None,
    ensures
        fn_defs(file, src, owners, ranges) is None,
    decreases ranges.len(),
{
    if n == ranges.len() {
        assert(ranges.take(n) =~= ranges);
    } else {
        assert(ranges.drop_last().take(n) =~= ranges.take(n));
        lemma_fn_defs_fail(file, src, owners, ranges.drop_last(), n);
    }
}

/// The definitions of one file; none where a pattern does not compile or one of
/// its matches cannot be cut out.
pub open spec fn file_defs(file: Seq<char>, src: Seq<char>) -> Option<Seq<Def<Seq<char>>>> {
    match pattern_ranges(OWNER_PATTERN@, blank_text(src)) {
        Some(headers) => match owner_ranges(src, headers) {
            Some(owners) => match pattern_ranges(FN_PATTERN@, blank_text(src)) {
                Some(heads) => fn_defs(file, src, owners, heads),
                None => None,
            },
            None => None,
        },
        None => None,
    }
}

/// The definitions of several files, given as pairs of a path and what the file
/// holds, in order.
pub open spec fn index(files: Seq<(Seq<char>, Seq<char>)>) -> Option<Seq<Def<Seq<char>>>>
    decreases files.len(),
{
    if files.len() == 0 {
        Some(seq![])
    } else {
        match index(files.drop_last()) {
            Some(v) => match file_defs(files.last().0, files.last().1) {
                Some(w) => Some(v + w),
                None => None,
            },
            None => None,
        }
    }
}

/// Indexes one file.
fn index_file(file: &str, src: &str) -> (r: Option<Vec<Def<String>>>)
    ensures
        match r {
            Some(v) => file_defs(file@, src@) == Some(defs(v@)),
            None => file_defs(file@, src@) is None,
        },
{
    let blank = blank_source(src);
    let headers = match find_ranges(OWNER_PATTERN, blank.as_str()) {
        Some(v) => v,
        None => {
            return None;
        },
    };
    let owners = match find_owners(src, blank.as_str(), &headers) {
        Some(v) => v,
        None => {
            return None;
        },
    };
    let heads = match find_ranges(FN_PATTERN, blank.as_str()) {
        Some(v) => v,
        None => {
            return None;
        },
    };
    read_defs(file, src, &owners, &heads)
}

/// A failure among the first files is one among all of them.
proof fn lemma_index_fail(files: Seq<(Seq<char>, Seq<char>)>, n: int)
    requires
        0 <= n <= files.len(),
        index(files.take(n)) is None,
    ensures
        index(files) is None,
    decreases files.len(),
{
    if n == files.len() {
        assert(files.take(n) =~= files);
    } else {
        assert(files.drop_last().take(n) =~= files.take(n));
        lemma_index_fail(files.drop_last(), n);
    }
}

/// Indexes the functions of several files.
pub fn build_index(files: &Vec<(String, String)>) -> (r: Option<Vec<Def<String>>>)
    ensures
        match r {
            Some(v) => index(crate::text::pairs(files@)) == Some(defs(v@)),
            None => index(crate::text::pairs(files@)) is None,
        },
{
    let mut out: Vec<Def<String>> = Vec::new();
    let ghost all = crate::text::pairs(files@);
    let mut i: usize = 0;
    assert(all.take(0) =~= seq![]);
    assert(defs(out@) =~= seq![]);
    while i < files.len()
        invariant
            i <= files.len(),
            all == crate::text::pairs(files@),
            index(all.take(i as int)) == Some(defs(out@)),
        decreases files.len() - i,
    {
        let ghost was = defs(out@);
        assert(all.take(i + 1).drop_last() =~= all.take(i as int));
        assert(all.take(i + 1).last() == (files@[i as int].0@, files@[i as int].1@));
        match index_file(files[i].0.as_str(), files[i].1.as_str()) {
            Some(more) => {
                let mut more = more;
                let ghost added = more@;
                out.append(&mut more);
                assert(defs(out@) =~= was + defs(added));
            },
            None => {
                proof {
                    lemma_index_fail(all, i + 1);
                }
                return None;
            },
        }
        i = i + 1;
    }
    assert(all.take(i as int) =~= all);
    Some(out)
}

// ---------------------------------------------------------------------------
// Calls
// ---------------------------------------------------------------------------

/// A word that stands in front of a bracket without being called.
pub open spec fn is_keyword(name: Seq<char>) -> bool {
    ||| name == "if"@
    ||| name == "while"@
    ||| name == "for"@
    ||| name == "match"@
    ||| name == "return"@
    ||| name == "fn"@
    ||| name == "let"@
    ||| name == "loop"@
    ||| name == "as"@
    ||| name == "move"@
    ||| name == "where"@
    ||| name == "in"@
    ||| name == "impl"@
    ||| name == "self"@
}

/// The calls among the groups of the matches, each given once: the second group
/// is the name, the first the receiver.
pub open spec fn selected(groups: Seq<(Option<Seq<char>>, Option<Seq<char>>)>) -> Seq<
    (Seq<char>, Option<Seq<char>>),
>
    decreases groups.len(),
{
    if groups.len() == 0 {
        seq![]
    } else {
        let done = selected(groups.drop_last());
        match groups.last().1 {
            Some(name) => if is_keyword(name) || done.contains((name, groups.last().0)) {
                done
            } else {
                done.push((name, groups.last().0))
            },
            None => done,
        }
    }
}

/// What a body calls; `None` for a pattern that does not compile.
pub open spec fn called(body: Seq<char>) -> Option<Seq<(Seq<char>, Option<Seq<char>>)>> {
    match pattern_groups(CALL_PATTERN@, blank_text(body)) {
        Some(groups) => Some(selected(groups)),
        None => None,
    }
}

/// The views of calls.
pub open spec fn call_views(v: Seq<(String, Option<String>)>) -> Seq<
    (Seq<char>, Option<Seq<char>>),
> {
    Seq::new(v.len(), |i: int| (v[i].0@, opt_text(v[i].1)))
}

/// Whether a word is one that is never called.
pub fn keyword(name: &str) -> (r: bool)
    ensures
        r == is_keyword(name@),
{
    same(name, "if") || same(name, "while") || same(name, "for") || same(name, "match") || same(
        name,
        "return",
    ) || same(name, "fn") || same(name, "let") || same(name, "loop") || same(name, "as") || same(
        name,
        "move",
    ) || same(name, "where") || same(name, "in") || same(name, "impl") || same(name, "self")
}

/// Whether two optional texts are the same.
pub fn same_opt(a: &Option<String>, b: &Option<String>) -> (r: bool)
    ensures
        r == (opt_text(*a) == opt_text(*b)),
{
    match (a, b) {
        (Some(x), Some(y)) => same(x.as_str(), y.as_str()),
        (None, None) => true,
        _ => false,
    }
}

/// Copies an optional text.
pub fn copy_opt(o: &Option<String>) -> (r: Option<String>)
    ensures
        opt_text(r) == opt_text(*o),
{
    match o {
        Some(t) => Some(t.clone()),
        None => None,
    }
}

/// Whether a call is among those found.
fn has_call(v: &Vec<(String, Option<String>)>, name: &str, recv: &Option<String>) -> (r: bool)
    ensures
        r == call_views(v@).contains((name@, opt_text(*recv))),
{
    let mut i: usize = 0;
    while i < v.len()
        invariant
            i <= v.len(),
            forall|j: int| 0 <= j < i ==> call_views(v@)[j] != (name@, opt_text(*recv)),
        decreases v.len() - i,
    {
        if same(v[i].0.as_str(), name) && same_opt(&v[i].1, recv) {
            assert(call_views(v@)[i as int] == (name@, opt_text(*recv)));
            return true;
        }
        i = i + 1;
    }
    false
}

/// Selects the calls from the groups of the matches.
pub fn select_calls(groups: &Vec<(Option<String>, Option<String>)>) -> (r: Vec<
    (String, Option<String>),
>)
    ensures
        call_views(r@) == selected(groups_view(groups@)),
{
    let mut out: Vec<(String, Option<String>)> = Vec::new();
    let ghost all = groups_view(groups@);
    let mut i: usize = 0;
    assert(all.take(0) =~= seq![]);
    assert(call_views(out@) =~= seq![]);
    while i < groups.len()
        invariant
            i <= groups.len(),
            all == groups_view(groups@),
            call_views(out@) == selected(all.take(i as int)),
        decreases groups.len() - i,
    {
        let ghost was = call_views(out@);
        assert(all.take(i + 1).drop_last() =~= all.take(i as int));
        assert(all.take(i + 1).last() == all[i as int]);
        match &groups[i].1 {
            Some(name) => {
                if !keyword(name.as_str()) && !has_call(&out, name.as_str(), &groups[i].0) {
                    let n = name.clone();
                    let recv = copy_opt(&groups[i].0);
                    out.push((n, recv));
                    assert(call_views(out@) =~= was.push((n@, opt_text(recv))));
                }
            },
            None => {},
        }
        i = i + 1;
    }
    assert(all.take(i as int) =~= all);
    out
}

/// Lists what a body calls.
pub fn calls(body: &str) -> (r: Option<Vec<(String, Option<String>)>>)
    ensures
        match r {
            Some(v) => called(body@) == Some(call_views(v@)),
            None => called(body@) is None,
        },
{
    let blank = blank_source(body);
    match find_groups(CALL_PATTERN, blank.as_str()) {
        Some(groups) => Some(select_calls(&groups)),
        None => None,
    }
}

/// A call is listed once, and no keyword is listed.
pub proof fn law_calls_are_distinct(groups: Seq<(Option<Seq<char>>, Option<Seq<char>>)>)
    ensures
        selected(groups).no_duplicates(),
        forall|i: int| 0 <= i < selected(groups).len() ==> !is_keyword(#[trigger] selected(groups)[i].0),
    decreases groups.len(),
{
    if groups.len() > 0 {
        law_calls_are_distinct(groups.drop_last());
    }
}

/// Words that stand in front of a bracket and are not called: these and no others.
pub proof fn law_keywords_are_not_called(name: Seq<char>)
    ensures
        is_keyword(name) <==> seq![
            "if"@,
            "while"@,
            "for"@,
            "match"@,
            "return"@,
            "fn"@,
            "let"@,
            "loop"@,
            "as"@,
            "move"@,
            "where"@,
            "in"@,
            "impl"@,
            "self"@,
        ].contains(name),
{
    let all = seq![
        "if"@,
        "while"@,
        "for"@,
        "match"@,
        "return"@,
        "fn"@,
        "let"@,
        "loop"@,
        "as"@,
        "move"@,
        "where"@,
        "in"@,
        "impl"@,
        "self"@,
    ];
    assert(all[0] == "if"@ && all[1] == "while"@ && all[2] == "for"@ && all[3] == "match"@);
    assert(all[4] == "return"@ && all[5] == "fn"@ && all[6] == "let"@ && all[7] == "loop"@);
    assert(all[8] == "as"@ && all[9] == "move"@ && all[10] == "where"@ && all[11] == "in"@);
    assert(all[12] == "impl"@ && all[13] == "self"@);
}

/// Every call is listed, and nothing but calls: what is listed was found with
/// this name and this receiver, and each name that was found, unless it is a
/// keyword, is listed with its receiver. Calls are listed in the order in which
/// they are first made: more matches add to the list behind what it holds.
pub proof fn law_calls_are_all_listed(groups: Seq<(Option<Seq<char>>, Option<Seq<char>>)>)
    ensures
        forall|i: int|
            0 <= i < groups.len() && (#[trigger] groups[i]).1 is Some && !is_keyword(
                groups[i].1->0,
            ) ==> selected(groups).contains((groups[i].1->0, groups[i].0)),
        forall|k: int|
            0 <= k < selected(groups).len() ==> groups.contains(
                ((#[trigger] selected(groups)[k]).1, Some(selected(groups)[k].0)),
            ),
        groups.len() > 0 ==> selected(groups.drop_last()).len() <= selected(groups).len()
            && selected(groups).take(selected(groups.drop_last()).len() as int) == selected(
            groups.drop_last(),
        ),
    decreases groups.len(),
{
    if groups.len() > 0 {
        let front = groups.drop_last();
        let done = selected(front);
        let all = selected(groups);
        law_calls_are_all_listed(front);
        assert(all.take(done.len() as int) =~= done);
        assert forall|i: int|
            0 <= i < groups.len() && (#[trigger] groups[i]).1 is Some && !is_keyword(
                groups[i].1->0,
            ) implies all.contains((groups[i].1->0, groups[i].0)) by {
            let c = (groups[i].1->0, groups[i].0);
            if i < front.len() {
                assert(front[i] == groups[i]);
                let k = choose|k: int| 0 <= k < done.len() && done[k] == c;
                assert(all.take(done.len() as int)[k] == c);
                assert(all[k] == c);
            } else if done.contains(c) {
                let k = choose|k: int| 0 <= k < done.len() && done[k] == c;
                assert(all[k] == c);
            } else {
                assert(all[done.len() as int] == c);
            }
        }
        assert forall|k: int| 0 <= k < all.len() implies groups.contains(
            ((#[trigger] all[k]).1, Some(all[k].0)),
        ) by {
            if k < done.len() {
                assert(all[k] == done[k]);
                let i = choose|i: int|
                    0 <= i < front.len() && front[i] == (done[k].1, Some(done[k].0));
                assert(groups[i] == (all[k].1, Some(all[k].0)));
            } else {
                assert(groups[groups.len() - 1] == (all[k].1, Some(all[k].0)));
            }
        }
    }
}

/// Files are indexed one behind the other.
pub proof fn law_files_are_indexed_in_order(
    a: Seq<(Seq<char>, Seq<char>)>,
    b: Seq<(Seq<char>, Seq<char>)>,
)
    ensures
        index(a + b) == (match (index(a), index(b)) {
            (Some(x), Some(y)) => Some(x + y),
            _ => None,
        }),
        a.len() == 1 ==> index(a) == file_defs(a[0].0, a[0].1),
        a.len() == 0 ==> index(a) == Some(Seq::<Def<Seq<char>>>::empty()),
    decreases b.len(),
{
    if a.len() == 1 {
        assert(a.drop_last() =~= seq![]);
        assert(index(a.drop_last()) == Some(Seq::<Def<Seq<char>>>::empty()));
        match file_defs(a[0].0, a[0].1) {
            Some(w) => {
                assert(Seq::<Def<Seq<char>>>::empty() + w =~= w);
            },
            None => {},
        }
    }
    if b.len() == 0 {
        assert(a + b =~= a);
        match index(a) {
            Some(x) => {
                assert(x + Seq::<Def<Seq<char>>>::empty() =~= x);
            },
            None => {},
        }
    } else {
        assert((a + b).drop_last() =~= a + b.drop_last());
        law_files_are_indexed_in_order(a, b.drop_last());
        match (index(a), index(b.drop_last()), file_defs(b.last().0, b.last().1)) {
            (Some(x), Some(y), Some(w)) => {
                assert(x + y + w =~= x + (y + w));
            },
            _ => {},
        }
    }
}

/// The owner of a place is that of the innermost range that holds it, where
/// ranges are listed from outside to inside: a range that holds the place
/// decides over those before it, and one that does not changes nothing.
pub proof fn law_the_last_range_decides_the_owner(
    owners: Seq<(int, int, Option<Seq<char>>)>,
    from: int,
    to: int,
    owner: Option<Seq<char>>,
    p: int,
)
    ensures
        from <= p < to ==> owner_at(owners.push((from, to, owner)), p) == owner,
        p < from || to <= p ==> owner_at(owners.push((from, to, owner)), p) == owner_at(
            owners,
            p,
        ),
        owner_at(Seq::<(int, int, Option<Seq<char>>)>::empty(), p) is None,
{
    assert(owners.push((from, to, owner)).drop_last() =~= owners);
}

/// A function that is indexed is cut out whole. Its body runs from the first
/// brace behind its head to the brace that ends it; its text ends with the body
/// and begins, with the beginning of a line, no later than the head; between
/// head and body no statement ends. A head whose statement ends before any brace
/// declares a function without a body, which is left out.
pub proof fn law_indexed_functions_are_whole(
    file: Seq<char>,
    src: Seq<char>,
    owners: Seq<(int, int, Option<Seq<char>>)>,
    range: (usize, usize),
)
    ensures
        ({
            let b = utf8(src);
            let blank = blanked(b);
            match fn_def(file, src, owners, range) {
                Found::Is(d) => {
                    &&& d.file == file
                    &&& d.owner == owner_at(owners, range.0 as int)
                    &&& exists|start: int, brace: int, end: int|
                        #![trigger byte_slice(src, start, end), byte_slice(src, brace, end)]
                        {
                            &&& 0 <= start <= range.0 && range.1 <= brace <= end <= b.len()
                            &&& start == 0 || b[start - 1] == 10
                            &&& blank[brace] == 123 && b[end - 1] == 125
                            &&& forall|j: int|
                                range.1 <= j < brace ==> #[trigger] blank[j] != 123 && blank[j]
                                    != 59
                            &&& body_end(b, range.0 as int) == Some(end)
                            &&& d.text == byte_slice(src, start, end)
                            &&& d.body == byte_slice(src, brace, end)
                        }
                },
                _ => true,
            }
        }),
{
    let b = utf8(src);
    let blank = blanked(b);
    let (s, e) = (range.0 as int, range.1 as int);
    match fn_def(file, src, owners, range) {
        Found::Is(d) => {
            let brace = first_byte(blank, 123, e)->0;
            let end = body_end(b, s)->0;
            lemma_first_byte(blank, 123, e);
            lemma_first_byte(blank, 59, e);
            law_blanking_keeps_offsets(b);
            law_body_closes_the_first_brace(b, s);
            lemma_line_start(b, s);
            lemma_item_start(src, line_start(b, s));
            let start = item_start(src, line_start(b, s));
            assert(d.text == byte_slice(src, start, end));
            assert(d.body == byte_slice(src, brace, end));
        },
        _ => {},
    }
}

/// A byte that is found is the first one.
proof fn lemma_first_byte(b: Seq<u8>, byte: u8, from: int)
    requires
        0 <= from,
    ensures
        match first_byte(b, byte, from) {
            Some(p) => from <= p < b.len() && b[p] == byte && forall|j: int|
                from <= j < p ==> #[trigger] b[j] != byte,
            None => forall|j: int| from <= j < b.len() ==> #[trigger] b[j] != byte,
        },
    decreases b.len() - from,
{
    let n = seq![byte];
    if from + 1 <= b.len() {
        assert(b.subrange(from, from + 1) =~= seq![b[from]]);
        if b[from] == byte {
            assert(bytes_at(b, n, from));
        } else {
            assert(b.subrange(from, from + 1)[0] != n[0]);
            assert(!bytes_at(b, n, from));
            lemma_first_byte(b, byte, from + 1);
        }
    }
}

/// The owner of an `impl` or a `trait` is what follows the keyword, or what
/// follows the first ` for ` where a trait is implemented for it.
pub proof fn law_headers_name_their_owner(a: Seq<char>, b: Seq<char>)
    ensures
        header_rest("impl"@ + a) == a,
        header_rest("trait"@ + a) == a,
        !occurs(a, " for "@) ==> owner_part(a) == a,
        find_from(a + " for "@ + b, " for "@, 0) == Some(a.len() as int) ==> owner_part(
            a + " for "@ + b,
        ) == b,
{
    reveal_strlit("impl");
    reveal_strlit("trait");
    reveal_strlit(" for ");
    let s = "impl"@ + a;
    let t = "trait"@ + a;
    assert(s[0] == 'i' && t[0] == 't');
    assert(drop_front(s, Class::Space) == s);
    assert(drop_front(t, Class::Space) == t);
    law_prefix_and_suffix_come_off("impl"@, a);
    law_prefix_and_suffix_come_off("trait"@, a);
    assert(!begins(t, "impl"@)) by {
        assert(t.subrange(0, 4)[0] == 't');
        assert("impl"@[0] == 'i');
    }
    assert((a + " for "@ + b).skip(a.len() as int + 5) =~= b);
}

/// Functions are indexed in the order of their heads, and none is left out but
/// those without a body: a head is passed over where no brace follows it, where
/// a statement ends before the brace, or where the braces do not close.
pub proof fn law_functions_are_indexed_in_order(
    file: Seq<char>,
    src: Seq<char>,
    owners: Seq<(int, int, Option<Seq<char>>)>,
    a: Seq<(usize, usize)>,
    b: Seq<(usize, usize)>,
)
    ensures
        fn_defs(file, src, owners, a + b) == (match (
            fn_defs(file, src, owners, a),
            fn_defs(file, src, owners, b),
        ) {
            (Some(x), Some(y)) => Some(x + y),
            _ => None,
        }),
        a.len() == 1 ==> (match fn_def(file, src, owners, a[0]) {
            Found::Is(d) => fn_defs(file, src, owners, a) == Some(seq![d]),
            Found::Skip => fn_defs(file, src, owners, a) == Some(Seq::<Def<Seq<char>>>::empty())
                && ({
                let blank = blanked(utf8(src));
                let e = a[0].1 as int;
                ||| body_end(utf8(src), a[0].0 as int) is None
                ||| forall|j: int| e <= j < blank.len() ==> #[trigger] blank[j] != 123
                ||| exists|k: int|
                    e <= k < blank.len() && #[trigger] blank[k] == 59 && forall|j: int|
                        e <= j < k ==> #[trigger] blank[j] != 123
            }),
            Found::Bad => fn_defs(file, src, owners, a) is None,
        }),
    decreases b.len(),
{
    let none = Seq::<Def<Seq<char>>>::empty();
    if a.len() == 1 {
        assert(a.drop_last() =~= seq![]);
        assert(fn_defs(file, src, owners, a.drop_last()) == Some(none));
        match fn_def(file, src, owners, a[0]) {
            Found::Is(d) => {
                assert(none.push(d) =~= seq![d]);
            },
            Found::Skip => {
                let blank = blanked(utf8(src));
                let e = a[0].1 as int;
                lemma_first_byte(blank, 123, e);
                lemma_first_byte(blank, 59, e);
                if first_byte(blank, 123, e) is Some && body_end(utf8(src), a[0].0 as int)
                    is Some {
                    let k = first_byte(blank, 59, e)->0;
                    assert(blank[k] == 59);
                }
            },
            Found::Bad => {},
        }
    }
    if b.len() == 0 {
        assert(a + b =~= a);
        match fn_defs(file, src, owners, a) {
            Some(x) => {
                assert(x + none =~= x);
            },
            None => {},
        }
    } else {
        assert((a + b).drop_last() =~= a + b.drop_last());
        law_functions_are_indexed_in_order(file, src, owners, a, b.drop_last());
        match (fn_defs(file, src, owners, a), fn_defs(file, src, owners, b.drop_last())) {
            (Some(x), Some(y)) => {
                match fn_def(file, src, owners, b.last()) {
                    Found::Is(d) => {
                        assert((x + y).push(d) =~= x + y.push(d));
                    },
                    _ => {},
                }
            },
            _ => {},
        }
    }
}

/// Calls are read from code: comments, strings and char literals of a body are
/// blanked first, byte by byte.
pub proof fn law_calls_are_read_from_code(body: Seq<char>)
    ensures
        utf8(blank_text(body)) == blanked(utf8(body)),
        match pattern_groups(CALL_PATTERN@, blank_text(body)) {
            Some(groups) => called(body) == Some(selected(groups)),
            None => called(body) is None,
        },
{
    encode_utf8_valid_utf8(body);
    law_blanking_keeps_utf8(utf8(body));
    decode_utf8_encode_utf8(blanked(utf8(body)));
}

/// An `impl` or a `trait` owns what stands from its header to the end of its
/// body. One without a body owns nothing.
pub proof fn law_owners_cover_their_bodies(src: Seq<char>, range: (usize, usize))
    ensures
        match owner_range(src, range) {
            Found::Is((from, to, owner)) => from == range.0 && body_end(
                utf8(src),
                range.0 as int,
            ) == Some(to) && header_owner(byte_slice(src, range.0 as int, range.1 as int)) == Some(
                owner,
            ),
            Found::Skip => body_end(utf8(src), range.0 as int) is None || forall|j: int|
                range.1 <= j < blanked(utf8(src)).len() ==> #[trigger] blanked(utf8(src))[j] != 123,
            Found::Bad => true,
        },
{
    lemma_first_byte(blanked(utf8(src)), 123, range.1 as int);
}

/// Owners are listed in the order of their headers.
pub proof fn law_owners_are_listed_in_order(
    src: Seq<char>,
    a: Seq<(usize, usize)>,
    b: Seq<(usize, usize)>,
)
    ensures
        owner_ranges(src, a + b) == (match (owner_ranges(src, a), owner_ranges(src, b)) {
            (Some(x), Some(y)) => Some(x + y),
            _ => None,
        }),
        a.len() == 1 ==> (match owner_range(src, a[0]) {
            Found::Is(o) => owner_ranges(src, a) == Some(seq![o]),
            Found::Skip => owner_ranges(src, a) == Some(
                Seq::<(int, int, Option<Seq<char>>)>::empty(),
            ),
            Found::Bad => owner_ranges(src, a) is None,
        }),
    decreases b.len(),
{
    let none = Seq::<(int, int, Option<Seq<char>>)>::empty();
    if a.len() == 1 {
        assert(a.drop_last() =~= seq![]);
        assert(owner_ranges(src, a.drop_last()) == Some(none));
        match owner_range(src, a[0]) {
            Found::Is(o) => {
                assert(none.push(o) =~= seq![o]);
            },
            _ => {},
        }
    }
    if b.len() == 0 {
        assert(a + b =~= a);
        match owner_ranges(src, a) {
            Some(x) => {
                assert(x + none =~= x);
            },
            None => {},
        }
    } else {
        assert((a + b).drop_last() =~= a + b.drop_last());
        law_owners_are_listed_in_order(src, a, b.drop_last());
        match (owner_ranges(src, a), owner_ranges(src, b.drop_last())) {
            (Some(x), Some(y)) => {
                match owner_range(src, b.last()) {
                    Found::Is(o) => {
                        assert((x + y).push(o) =~= x + y.push(o));
                    },
                    _ => {},
                }
            },
            _ => {},
        }
    }
}

/// The owner of a header is the first name in what it names, without generics.
pub proof fn law_owners_are_named_without_generics(header: Seq<char>, h: Seq<char>)
    ensures
        pattern_replaced(GENERICS_PATTERN@, header_rest(header), ""@) == Some(h) ==> header_owner(
            header,
        ) == pattern_first(NAME_PATTERN@, owner_part(h)),
        pattern_replaced(GENERICS_PATTERN@, header_rest(header), ""@) is None ==> header_owner(
            header,
        ) is None,
{
}

/// A file is indexed by its functions, each with the owner that it stands in.
pub proof fn law_files_are_indexed_by_their_functions(file: Seq<char>, src: Seq<char>)
    ensures
        match (
            pattern_ranges(OWNER_PATTERN@, blank_text(src)),
            pattern_ranges(FN_PATTERN@, blank_text(src)),
        ) {
            (Some(headers), Some(heads)) => match owner_ranges(src, headers) {
                Some(owners) => file_defs(file, src) == fn_defs(file, src, owners, heads),
                None => file_defs(file, src) is None,
            },
            _ => file_defs(file, src) is None,
        },
{
}

} // verus!

//! The directives of the architecture spine, and the source snippets they name.

use vstd::prelude::*;
use vstd::utf8::encode_utf8_valid_utf8;

use crate::bytes::{byte_slice, lemma_ascii_boundaries, slice_text, utf8};
use crate::docs::items::{
    decl_pos, declared_at, expand_back, is_leading_line, item_start, lemma_line_start, line_start,
};
use crate::docs::source::{body_end, law_body_closes_the_first_brace, match_body};
use crate::lines::{
    join, joined, law_joining_adds_up, law_lines_add_up, lemma_words_trim, lines, split_lines,
    split_words, words,
};
use crate::numbers::{dec, law_numbers_read_back, parse_number, read_number};
use crate::paths::{extension, extension_of};
use crate::text::{
    before, begins, begins_with, behind, char_pos, chars_of, contains, cut, cut_at, cut_prefix,
    cut_suffix, drop_back, law_a_text_is_cut_at_the_first, law_prefix_and_suffix_come_off,
    lemma_position_is, occurs, pairs, position, same, text_of, texts, trim, trimmed, without_back,
    Class,
};

verus! {

// ---------------------------------------------------------------------------
// Directives
// ---------------------------------------------------------------------------

/// The attributes that the words write as `key=value`; other words write none.
pub open spec fn attributes(ws: Seq<Seq<char>>) -> Seq<(Seq<char>, Seq<char>)>
    decreases ws.len(),
{
    if ws.len() == 0 {
        seq![]
    } else {
        match cut(ws.last(), '=') {
            Some(kv) => attributes(ws.drop_last()).push(kv),
            None => attributes(ws.drop_last()),
        }
    }
}

/// What stands inside the comment that makes up a whole line.
pub open spec fn comment_inside(line: Seq<char>) -> Option<Seq<char>> {
    match behind(line, "<!--"@) {
        Some(rest) => match before(rest, "-->"@) {
            Some(inner) => Some(trim(inner)),
            None => None,
        },
        None => None,
    }
}

/// The attributes of the snippet directive that a line is, or none.
pub open spec fn directive(line: Seq<char>) -> Option<Seq<(Seq<char>, Seq<char>)>> {
    match comment_inside(line) {
        Some(inner) => if words(inner).len() > 0 && words(inner)[0] == "snippet"@ {
            Some(attributes(words(inner).drop_first()))
        } else {
            None
        },
        None => None,
    }
}

/// Reads the attributes from the words behind the first.
fn read_attributes(ws: &Vec<String>) -> (r: Vec<(String, String)>)
    requires
        ws.len() > 0,
    ensures
        pairs(r@) == attributes(texts(ws@).drop_first()),
{
    let mut out: Vec<(String, String)> = Vec::new();
    let mut i: usize = 1;
    let ghost rest = texts(ws@).drop_first();
    assert(rest.take(0) =~= seq![]);
    assert(pairs(out@) =~= seq![]);
    while i < ws.len()
        invariant
            1 <= i <= ws.len(),
            rest == texts(ws@).drop_first(),
            pairs(out@) == attributes(rest.take(i - 1)),
        decreases ws.len() - i,
    {
        assert(rest[i - 1] == ws@[i as int]@);
        assert(rest.take(i as int).drop_last() =~= rest.take(i - 1));
        let ghost was = pairs(out@);
        match cut_at(ws[i].as_str(), '=') {
            Some(kv) => {
                let (k, v) = kv;
                out.push((k, v));
                assert(pairs(out@) =~= was.push((k@, v@)));
            },
            None => {},
        }
        i = i + 1;
    }
    assert(rest.take(i - 1) =~= rest);
    out
}

/// The attributes of a directive, where they were read.
pub open spec fn opt_pairs(o: Option<Vec<(String, String)>>) -> Option<
    Seq<(Seq<char>, Seq<char>)>,
> {
    match o {
        Some(v) => Some(pairs(v@)),
        None => None,
    }
}

/// Reads a snippet directive from a trimmed line.
pub fn parse_directive(line: &str) -> (r: Option<Vec<(String, String)>>)
    ensures
        opt_pairs(r) == directive(line@),
{
    let rest = match cut_prefix(line, "<!--") {
        Some(rest) => rest,
        None => {
            return None;
        },
    };
    let inner = match cut_suffix(rest.as_str(), "-->") {
        Some(inner) => inner,
        None => {
            return None;
        },
    };
    let t = trimmed(inner.as_str());
    let ws = split_words(t.as_str());
    if ws.len() == 0 {
        assert(texts(ws@).len() == 0);
        return None;
    }
    assert(texts(ws@)[0] == ws@[0]@);
    if !same(ws[0].as_str(), "snippet") {
        return None;
    }
    Some(read_attributes(&ws))
}

/// The value of an attribute: the last one given for the key.
pub open spec fn attr(attrs: Seq<(Seq<char>, Seq<char>)>, key: Seq<char>) -> Option<Seq<char>>
    decreases attrs.len(),
{
    if attrs.len() == 0 {
        None
    } else if attrs.last().0 == key {
        Some(attrs.last().1)
    } else {
        attr(attrs.drop_last(), key)
    }
}

/// Looks an attribute up.
pub fn get_attr(attrs: &Vec<(String, String)>, key: &str) -> (r: Option<String>)
    ensures
        match r {
            Some(v) => attr(pairs(attrs@), key@) == Some(v@),
            None => attr(pairs(attrs@), key@) is None,
        },
{
    let ghost all = pairs(attrs@);
    let mut i: usize = attrs.len();
    assert(all.take(i as int) =~= all);
    while i > 0
        invariant
            i <= attrs.len(),
            all == pairs(attrs@),
            attr(all.take(i as int), key@) == attr(all, key@),
        decreases i,
    {
        assert(all.take(i as int).drop_last() =~= all.take(i - 1));
        assert(all.take(i as int).last() == (attrs@[i - 1].0@, attrs@[i - 1].1@));
        if same(attrs[i - 1].0.as_str(), key) {
            return Some(attrs[i - 1].1.clone());
        }
        i = i - 1;
    }
    None
}

// ---------------------------------------------------------------------------
// Snippets
// ---------------------------------------------------------------------------

/// Why a snippet cannot be had.
pub enum SnippetError<S> {
    /// The directive names no file.
    MissingFile,
    /// This is not the number of a line.
    BadNumber(S),
    /// The file does not hold this declaration.
    NotFound { keyword: S, name: S, nth: usize, path: S },
    /// The braces of the item do not close.
    Unbalanced,
}

impl SnippetError<String> {
    /// The error over the views of its texts.
    pub open spec fn seen(self) -> SnippetError<Seq<char>> {
        match self {
            SnippetError::MissingFile => SnippetError::MissingFile,
            SnippetError::BadNumber(s) => SnippetError::BadNumber(s@),
            SnippetError::NotFound { keyword, name, nth, path } => SnippetError::NotFound {
                keyword: keyword@,
                name: name@,
                nth,
                path: path@,
            },
            SnippetError::Unbalanced => SnippetError::Unbalanced,
        }
    }
}

/// The language of a file, by its extension.
pub open spec fn language(path: Seq<char>) -> Seq<char> {
    match extension(path) {
        Some(e) => if e == "rs"@ {
            "rust"@
        } else if e == "sh"@ {
            "bash"@
        } else if e == "toml"@ {
            "toml"@
        } else if e == "yaml"@ || e == "yml"@ {
            "yaml"@
        } else if e == "json"@ {
            "json"@
        } else if e == "xml"@ {
            "xml"@
        } else if e == "java"@ {
            "java"@
        } else {
            "text"@
        },
        None => "text"@,
    }
}

/// Names the language of a file.
pub fn lang_for(path: &str) -> (r: &'static str)
    ensures
        r@ == language(path@),
{
    match extension_of(path) {
        Some(ext) => {
            let e = ext.as_str();
            if same(e, "rs") {
                "rust"
            } else if same(e, "sh") {
                "bash"
            } else if same(e, "toml") {
                "toml"
            } else if same(e, "yaml") || same(e, "yml") {
                "yaml"
            } else if same(e, "json") {
                "json"
            } else if same(e, "xml") {
                "xml"
            } else if same(e, "java") {
                "java"
            } else {
                "text"
            }
        },
        None => "text",
    }
}

/// What stands in front of the first dash.
pub open spec fn range_first(range: Seq<char>) -> Seq<char> {
    range.take(position(range, '-'))
}

/// What stands between the first dash and the next one, or the end.
pub open spec fn range_second(range: Seq<char>) -> Seq<char> {
    let rest = range.skip(position(range, '-') + 1);
    rest.take(position(rest, '-'))
}

/// A range of lines that can be cut: where its first number reads, a second one
/// follows, and where both read, they count from one and do not run backwards.
pub open spec fn range_sound(range: Seq<char>) -> bool {
    match read_number(range_first(range), usize::MAX as nat) {
        Some(a) => position(range, '-') < range.len() && match read_number(
            range_second(range),
            usize::MAX as nat,
        ) {
            Some(b) => 1 <= a <= b,
            None => true,
        },
        None => true,
    }
}

/// The lines `a` to `b`, counted from one, as far as there are such lines.
pub open spec fn lines_between(src: Seq<char>, a: int, b: int) -> Seq<char> {
    let ls = lines(src);
    let from = if a - 1 < ls.len() {
        a - 1
    } else {
        ls.len() as int
    };
    let to = if b < ls.len() {
        b
    } else {
        ls.len() as int
    };
    join(ls.subrange(from, to), "\n"@)
}

/// The lines of `src` in a range, or the number that does not read.
pub open spec fn ranged(src: Seq<char>, range: Seq<char>) -> Result<
    Seq<char>,
    SnippetError<Seq<char>>,
> {
    match read_number(range_first(range), usize::MAX as nat) {
        Some(a) => match read_number(range_second(range), usize::MAX as nat) {
            Some(b) => Ok(lines_between(src, a as int, b as int)),
            None => Err(SnippetError::BadNumber(range_second(range))),
        },
        None => Err(SnippetError::BadNumber(range_first(range))),
    }
}

/// The attributes that name an item, in the order in which they are looked for.
/// Each is also the keyword of the item.
pub open spec fn kinds() -> Seq<Seq<char>> {
    seq!["fn"@, "struct"@, "enum"@, "impl"@, "trait"@, "type"@, "const"@, "static"@]
}

/// The first of the kinds from `i` on that is among the attributes.
pub open spec fn named_kind(attrs: Seq<(Seq<char>, Seq<char>)>, i: int) -> Option<int>
    decreases kinds().len() - i,
{
    if i < 0 || i >= kinds().len() {
        None
    } else if attr(attrs, kinds()[i]) is Some {
        Some(i)
    } else {
        named_kind(attrs, i + 1)
    }
}

/// Which of several declarations is meant: the first, unless a number says otherwise.
pub open spec fn which(attrs: Seq<(Seq<char>, Seq<char>)>) -> nat {
    match attr(attrs, "nth"@) {
        Some(s) => match read_number(s, usize::MAX as nat) {
            Some(n) => n,
            None => 1,
        },
        None => 1,
    }
}

/// The text of the item that is declared at `pos`, with the attributes and doc
/// comments above it.
pub open spec fn item_text(src: Seq<char>, pos: int) -> Option<Seq<char>> {
    match body_end(utf8(src), pos) {
        Some(end) => Some(
            byte_slice(src, item_start(src, line_start(utf8(src), pos)), end),
        ),
        None => None,
    }
}

/// The item that a keyword and a name declare.
pub open spec fn item(
    src: Seq<char>,
    keyword: Seq<char>,
    name: Seq<char>,
    nth: nat,
    path: Seq<char>,
) -> Result<Seq<char>, SnippetError<Seq<char>>> {
    match declared_at(src, keyword, name, nth as int) {
        Some(pos) => match item_text(src, pos) {
            Some(t) => Ok(t),
            None => Err(SnippetError::Unbalanced),
        },
        None => Err(SnippetError::NotFound { keyword, name, nth: nth as usize, path }),
    }
}

/// The text of the snippet: a range of lines, an item, or the whole source.
pub open spec fn snippet_body(
    attrs: Seq<(Seq<char>, Seq<char>)>,
    path: Seq<char>,
    src: Seq<char>,
) -> Result<Seq<char>, SnippetError<Seq<char>>> {
    match attr(attrs, "lines"@) {
        Some(range) => ranged(src, range),
        None => match named_kind(attrs, 0) {
            Some(i) => item(src, kinds()[i], attr(attrs, kinds()[i])->0, which(attrs), path),
            None => Ok(drop_back(src, Class::Space)),
        },
    }
}

/// The language of a snippet: the one that the directive gives, or that of its file.
pub open spec fn snippet_language(
    attrs: Seq<(Seq<char>, Seq<char>)>,
    path: Seq<char>,
) -> Seq<char> {
    match attr(attrs, "lang"@) {
        Some(l) => l,
        None => language(path),
    }
}

/// The language and the text of the snippet that the attributes name, where
/// `src` is what the file holds.
pub open spec fn snippet(attrs: Seq<(Seq<char>, Seq<char>)>, src: Seq<char>) -> Result<
    (Seq<char>, Seq<char>),
    SnippetError<Seq<char>>,
> {
    match attr(attrs, "file"@) {
        Some(path) => match snippet_body(attrs, path, src) {
            Ok(body) => Ok((snippet_language(attrs, path), body)),
            Err(e) => Err(e),
        },
        None => Err(SnippetError::MissingFile),
    }
}

/// The file that a directive names.
pub fn snippet_file(attrs: &Vec<(String, String)>) -> (r: Result<String, SnippetError<String>>)
    ensures
        match r {
            Ok(path) => attr(pairs(attrs@), "file"@) == Some(path@),
            Err(e) => attr(pairs(attrs@), "file"@) is None && e is MissingFile,
        },
{
    match get_attr(attrs, "file") {
        Some(path) => Ok(path),
        None => Err(SnippetError::MissingFile),
    }
}

/// Whether the lines that the attributes name, if they name any, can be cut.
pub fn lines_are_sound(attrs: &Vec<(String, String)>) -> (r: bool)
    ensures
        r == (attr(pairs(attrs@), "lines"@) is Some ==> range_sound(
            attr(pairs(attrs@), "lines"@)->0,
        )),
{
    let range = match get_attr(attrs, "lines") {
        Some(range) => range,
        None => {
            return true;
        },
    };
    let v = chars_of(range.as_str());
    let dash: usize = char_pos(&v, 0, '-');
    assert(v@.skip(0) =~= range@);
    let first = text_of(&v, 0, dash);
    assert(first@ =~= range_first(range@));
    match parse_number(first.as_str(), usize::MAX as u64) {
        Some(a) => {
            if dash >= v.len() {
                return false;
            }
            let end: usize = char_pos(&v, dash + 1, '-');
            let second = text_of(&v, dash + 1, end);
            assert(second@ =~= range_second(range@));
            match parse_number(second.as_str(), usize::MAX as u64) {
                Some(b) => 1 <= a && a <= b,
                None => true,
            }
        },
        None => true,
    }
}

/// Cuts a range of lines out of a source.
fn cut_range(src: &str, range: &str) -> (r: Result<String, SnippetError<String>>)
    requires
        range_sound(range@),
    ensures
        match r {
            Ok(body) => ranged(src@, range@) == Ok::<_, SnippetError<Seq<char>>>(body@),
            Err(e) => ranged(src@, range@) == Err::<Seq<char>, _>(e.seen()),
        },
{
    let v = chars_of(range);
    let dash: usize = char_pos(&v, 0, '-');
    assert(v@.skip(0) =~= range@);
    let first = text_of(&v, 0, dash);
    assert(first@ =~= range_first(range@));
    let a: u64 = match parse_number(first.as_str(), usize::MAX as u64) {
        Some(a) => a,
        None => {
            return Err(SnippetError::BadNumber(first));
        },
    };
    let end: usize = char_pos(&v, dash + 1, '-');
    let second = text_of(&v, dash + 1, end);
    assert(second@ =~= range_second(range@));
    let b: u64 = match parse_number(second.as_str(), usize::MAX as u64) {
        Some(b) => b,
        None => {
            return Err(SnippetError::BadNumber(second));
        },
    };
    let ls = split_lines(src);
    let mut picked: Vec<String> = Vec::new();
    let n: usize = ls.len();
    let from: usize = if a - 1 < n as u64 {
        (a - 1) as usize
    } else {
        n
    };
    let to: usize = if b < n as u64 {
        b as usize
    } else {
        n
    };
    let ghost all = lines(src@);
    let mut i: usize = from;
    assert(texts(picked@) =~= all.subrange(from as int, from as int));
    while i < to
        invariant
            from <= i <= to <= ls.len(),
            texts(ls@) == all,
            texts(picked@) == all.subrange(from as int, i as int),
        decreases to - i,
    {
        let ghost was = texts(picked@);
        let line = ls[i].clone();
        picked.push(line);
        assert(texts(ls@)[i as int] == line@);
        assert(texts(picked@) =~= was.push(line@));
        assert(all.subrange(from as int, i + 1) =~= was.push(line@));
        i = i + 1;
    }
    Ok(joined(&picked, "\n"))
}

/// The keyword of a kind of item.
fn kind_at(i: usize) -> (r: &'static str)
    requires
        i < 8,
    ensures
        r@ == kinds()[i as int],
{
    if i == 0 {
        "fn"
    } else if i == 1 {
        "struct"
    } else if i == 2 {
        "enum"
    } else if i == 3 {
        "impl"
    } else if i == 4 {
        "trait"
    } else if i == 5 {
        "type"
    } else if i == 6 {
        "const"
    } else {
        "static"
    }
}

/// Finds the kind of item that the attributes name.
fn find_kind(attrs: &Vec<(String, String)>) -> (r: Option<(usize, String)>)
    ensures
        match r {
            Some((i, name)) => i < 8 && named_kind(pairs(attrs@), 0) == Some(i as int) && attr(
                pairs(attrs@),
                kinds()[i as int],
            ) == Some(name@),
            None => named_kind(pairs(attrs@), 0) is None,
        },
{
    let mut i: usize = 0;
    while i < 8
        invariant
            i <= 8,
            named_kind(pairs(attrs@), i as int) == named_kind(pairs(attrs@), 0),
        decreases 8 - i,
    {
        match get_attr(attrs, kind_at(i)) {
            Some(name) => {
                return Some((i, name));
            },
            None => {},
        }
        i = i + 1;
    }
    None
}

/// Reads which of several declarations is meant.
fn read_which(attrs: &Vec<(String, String)>) -> (r: usize)
    ensures
        r == which(pairs(attrs@)),
{
    match get_attr(attrs, "nth") {
        Some(s) => match parse_number(s.as_str(), usize::MAX as u64) {
            Some(n) => n as usize,
            None => 1,
        },
        None => 1,
    }
}

/// Cuts out the item that is declared at `pos`.
pub fn cut_item(src: &str, pos: usize) -> (r: Option<String>)
    requires
        pos <= utf8(src@).len(),
    ensures
        match r {
            Some(t) => item_text(src@, pos as int) == Some(t@),
            None => item_text(src@, pos as int) is None,
        },
{
    match match_body(src.as_bytes(), pos) {
        Some(end) => {
            let start: usize = expand_back(src, pos);
            proof {
                encode_utf8_valid_utf8(src@);
                lemma_ascii_boundaries(utf8(src@), end - 1);
            }
            Some(slice_text(src, start, end))
        },
        None => None,
    }
}

/// Cuts the snippet that the attributes name out of its file, which holds `src`.
pub fn extract(attrs: &Vec<(String, String)>, src: &str) -> (r: Result<
    (String, String),
    SnippetError<String>,
>)
    requires
        attr(pairs(attrs@), "lines"@) is Some ==> range_sound(attr(pairs(attrs@), "lines"@)->0),
    ensures
        match r {
            Ok((lang, body)) => snippet(pairs(attrs@), src@) == Ok::<_, SnippetError<Seq<char>>>(
                (lang@, body@),
            ),
            Err(e) => snippet(pairs(attrs@), src@) == Err::<(Seq<char>, Seq<char>), _>(e.seen()),
        },
{
    let path = match snippet_file(attrs) {
        Ok(path) => path,
        Err(e) => {
            return Err(e);
        },
    };
    let lang: String = match get_attr(attrs, "lang") {
        Some(l) => l,
        None => lang_for(path.as_str()).to_owned(),
    };
    match get_attr(attrs, "lines") {
        Some(range) => {
            return match cut_range(src, range.as_str()) {
                Ok(body) => Ok((lang, body)),
                Err(e) => Err(e),
            };
        },
        None => {},
    }
    match find_kind(attrs) {
        Some(found) => {
            let (i, name) = found;
            let nth: usize = read_which(attrs);
            let keyword = kind_at(i);
            match decl_pos(src, keyword, name.as_str(), nth) {
                Some(pos) => match cut_item(src, pos) {
                    Some(body) => Ok((lang, body)),
                    None => Err(SnippetError::Unbalanced),
                },
                None => Err(
                    SnippetError::NotFound { keyword: keyword.to_owned(), name, nth, path },
                ),
            }
        },
        None => Ok((lang, without_back(src, Class::Space))),
    }
}

// ---------------------------------------------------------------------------
// The spine
// ---------------------------------------------------------------------------

/// Whether a trimmed line opens a comment that it does not close.
pub open spec fn opens_comment(t: Seq<char>) -> bool {
    begins(t, "<!--"@) && !occurs(t, "-->"@)
}

/// The directives among the lines, in order.
pub open spec fn directives(ls: Seq<Seq<char>>, in_comment: bool) -> Seq<
    Seq<(Seq<char>, Seq<char>)>,
>
    decreases ls.len(),
{
    if ls.len() == 0 {
        seq![]
    } else {
        let t = trim(ls[0]);
        let rest = ls.drop_first();
        if in_comment {
            directives(rest, !occurs(t, "-->"@))
        } else {
            match directive(t) {
                Some(attrs) => seq![attrs] + directives(rest, false),
                None => directives(rest, opens_comment(t)),
            }
        }
    }
}

/// A snippet as a fenced block. The fence of five tildes does not meet the
/// backquotes that sources hold.
pub open spec fn fenced(lang: Seq<char>, body: Seq<char>) -> Seq<char> {
    "\n~~~~~"@ + lang + "\n"@ + drop_back(body, Class::Space) + "\n~~~~~\n"@
}

/// The lines of a spine with its comments dropped and each directive replaced
/// by the next of `snippets`.
pub open spec fn spine(
    ls: Seq<Seq<char>>,
    in_comment: bool,
    snippets: Seq<(Seq<char>, Seq<char>)>,
) -> Seq<char>
    decreases ls.len(),
{
    if ls.len() == 0 {
        seq![]
    } else {
        let t = trim(ls[0]);
        let rest = ls.drop_first();
        if in_comment {
            spine(rest, !occurs(t, "-->"@), snippets)
        } else if directive(t) is Some {
            fenced(snippets[0].0, snippets[0].1) + spine(rest, false, snippets.drop_first())
        } else if opens_comment(t) {
            spine(rest, true, snippets)
        } else {
            ls[0].push('\n') + spine(rest, false, snippets)
        }
    }
}

/// The views of lists of attributes.
pub open spec fn all_pairs(v: Seq<Vec<(String, String)>>) -> Seq<Seq<(Seq<char>, Seq<char>)>> {
    Seq::new(v.len(), |i: int| pairs(v[i]@))
}

/// Lists the directives of a spine, in the order in which their snippets are needed.
pub fn spine_directives(text: &str) -> (r: Vec<Vec<(String, String)>>)
    ensures
        all_pairs(r@) == directives(lines(text@), false),
{
    let ls = split_lines(text);
    let mut out: Vec<Vec<(String, String)>> = Vec::new();
    let mut in_comment: bool = false;
    let mut i: usize = 0;
    let ghost all = lines(text@);
    assert(all.skip(0) =~= all);
    assert(all_pairs(out@) + directives(all, false) =~= directives(all, false));
    while i < ls.len()
        invariant
            i <= ls.len(),
            all == texts(ls@),
            all == lines(text@),
            all_pairs(out@) + directives(all.skip(i as int), in_comment) == directives(all, false),
        decreases ls.len() - i,
    {
        let ghost rest = all.skip(i as int);
        let ghost was = all_pairs(out@);
        assert(rest[0] == ls@[i as int]@);
        assert(rest.drop_first() =~= all.skip(i + 1));
        let t = trimmed(ls[i].as_str());
        if in_comment {
            in_comment = !contains(t.as_str(), "-->");
        } else {
            match parse_directive(t.as_str()) {
                Some(attrs) => {
                    out.push(attrs);
                    assert(all_pairs(out@) =~= was.push(pairs(attrs@)));
                    assert(all_pairs(out@) + directives(all.skip(i + 1), false) =~= was + (seq![
                        pairs(attrs@),
                    ] + directives(all.skip(i + 1), false)));
                },
                None => {
                    in_comment = begins_with(t.as_str(), "<!--") && !contains(t.as_str(), "-->");
                },
            }
        }
        i = i + 1;
    }
    assert(all.skip(i as int).len() == 0);
    assert(all_pairs(out@) + directives(all.skip(i as int), in_comment) =~= all_pairs(out@));
    out
}

/// Writes a snippet as a fenced block.
pub fn write_fenced(lang: &str, body: &str) -> (r: String)
    ensures
        r@ == fenced(lang@, body@),
{
    let mut r = "\n~~~~~".to_owned();
    r.append(lang);
    r.append("\n");
    let t = without_back(body, Class::Space);
    r.append(t.as_str());
    r.append("\n~~~~~\n");
    assert(r@ =~= fenced(lang@, body@));
    r
}

/// Expands a spine into plain markdown, given the snippets of its directives in order.
pub fn expand_spine(text: &str, snippets: &Vec<(String, String)>) -> (r: String)
    requires
        snippets.len() == directives(lines(text@), false).len(),
    ensures
        r@ == spine(lines(text@), false, pairs(snippets@)),
{
    let ls = split_lines(text);
    let mut out = String::new();
    let mut in_comment: bool = false;
    let mut i: usize = 0;
    let mut next: usize = 0;
    let ghost all = lines(text@);
    let ghost snips = pairs(snippets@);
    assert(all.skip(0) =~= all);
    assert(snips.skip(0) =~= snips);
    assert(out@ + spine(all, false, snips) =~= spine(all, false, snips));
    while i < ls.len()
        invariant
            i <= ls.len(),
            next <= snippets.len(),
            all == texts(ls@),
            snips == pairs(snippets@),
            snippets.len() - next == directives(all.skip(i as int), in_comment).len(),
            out@ + spine(all.skip(i as int), in_comment, snips.skip(next as int)) == spine(
                all,
                false,
                snips,
            ),
        decreases ls.len() - i,
    {
        let ghost rest = all.skip(i as int);
        let ghost was = out@;
        assert(rest[0] == ls@[i as int]@);
        assert(rest.drop_first() =~= all.skip(i + 1));
        let t = trimmed(ls[i].as_str());
        if in_comment {
            in_comment = !contains(t.as_str(), "-->");
        } else {
            match parse_directive(t.as_str()) {
                Some(attrs) => {
                    assert(snips.skip(next as int)[0] == snips[next as int]);
                    assert(snips.skip(next as int).drop_first() =~= snips.skip(next + 1));
                    let block = write_fenced(
                        snippets[next].0.as_str(),
                        snippets[next].1.as_str(),
                    );
                    out.append(block.as_str());
                    next = next + 1;
                    assert(out@ + spine(all.skip(i + 1), false, snips.skip(next as int)) =~= was + (
                    block@ + spine(all.skip(i + 1), false, snips.skip(next as int))));
                },
                None => {
                    if begins_with(t.as_str(), "<!--") && !contains(t.as_str(), "-->") {
                        in_comment = true;
                    } else {
                        out.append(ls[i].as_str());
                        out.push('\n');
                        assert(out@ + spine(all.skip(i + 1), false, snips.skip(next as int))
                            =~= was + (ls@[i as int]@.push('\n') + spine(
                            all.skip(i + 1),
                            false,
                            snips.skip(next as int),
                        )));
                    }
                },
            }
        }
        i = i + 1;
    }
    assert(all.skip(i as int).len() == 0);
    assert(out@ + spine(all.skip(i as int), in_comment, snips.skip(next as int)) =~= out@);
    out
}

/// The item that a directive names is whole: it begins at the beginning of a
/// line, at or before its declaration, and ends just behind a closing brace
/// that comes after the declaration begins.
pub proof fn law_an_item_is_whole(
    src: Seq<char>,
    keyword: Seq<char>,
    name: Seq<char>,
    nth: nat,
    path: Seq<char>,
)
    requires
        item(src, keyword, name, nth, path) is Ok,
    ensures
        ({
            let b = utf8(src);
            let pos = declared_at(src, keyword, name, nth as int)->0;
            let start = item_start(src, line_start(b, pos));
            let end = body_end(b, pos)->0;
            &&& 0 <= start <= pos < end <= b.len()
            &&& start == 0 || b[start - 1] == 10
            &&& b[end - 1] == 125
            &&& item(src, keyword, name, nth, path) == Ok::<_, SnippetError<Seq<char>>>(
                byte_slice(src, start, end),
            )
        }),
{
    let b = utf8(src);
    let pos = declared_at(src, keyword, name, nth as int)->0;
    law_body_closes_the_first_brace(b, pos);
    lemma_line_start(b, pos);
    lemma_item_start(src, line_start(b, pos));
}

/// The lines above an item begin at the beginning of a line.
proof fn lemma_item_start(src: Seq<char>, start: int)
    requires
        0 <= start,
        start == 0 || utf8(src)[start - 1] == 10,
    ensures
        0 <= item_start(src, start) <= start,
        item_start(src, start) == 0 || utf8(src)[item_start(src, start) - 1] == 10,
    decreases start,
{
    if 0 < start <= utf8(src).len() {
        let begin = line_start(utf8(src), start - 1);
        lemma_line_start(utf8(src), start - 1);
        if is_leading_line(byte_slice(src, begin, start - 1)) {
            lemma_item_start(src, begin);
        }
    }
}

/// Whether a comment is still open behind these lines.
pub open spec fn leaves_comment_open(ls: Seq<Seq<char>>, in_comment: bool) -> bool
    decreases ls.len(),
{
    if ls.len() == 0 {
        in_comment
    } else {
        let t = trim(ls[0]);
        leaves_comment_open(
            ls.drop_first(),
            if in_comment {
                !occurs(t, "-->"@)
            } else {
                directive(t) is None && begins(t, "<!--"@) && !occurs(t, "-->"@)
            },
        )
    }
}

/// The directives of lines are those of the first lines, then those of the rest.
proof fn lemma_directives_add_up(a: Seq<Seq<char>>, b: Seq<Seq<char>>, in_comment: bool)
    ensures
        directives(a + b, in_comment) == directives(a, in_comment) + directives(
            b,
            leaves_comment_open(a, in_comment),
        ),
    decreases a.len(),
{
    if a.len() == 0 {
        assert(a + b =~= b);
        assert(directives(a + b, in_comment) =~= directives(a, in_comment) + directives(
            b,
            in_comment,
        ));
    } else {
        let t = trim(a[0]);
        let rest = a.drop_first();
        assert((a + b)[0] == a[0]);
        assert((a + b).drop_first() =~= rest + b);
        lemma_directives_add_up(rest, b, !occurs(t, "-->"@));
        lemma_directives_add_up(rest, b, false);
        lemma_directives_add_up(rest, b, opens_comment(t));
        assert(directives(a + b, in_comment) =~= directives(a, in_comment) + directives(
            b,
            leaves_comment_open(a, in_comment),
        ));
    }
}

/// Lines take as many snippets as they have directives, from the first on.
proof fn lemma_spine_adds_up(
    a: Seq<Seq<char>>,
    b: Seq<Seq<char>>,
    in_comment: bool,
    snippets: Seq<(Seq<char>, Seq<char>)>,
)
    requires
        directives(a, in_comment).len() <= snippets.len(),
    ensures
        ({
            let k = directives(a, in_comment).len() as int;
            spine(a + b, in_comment, snippets) == spine(a, in_comment, snippets.take(k)) + spine(
                b,
                leaves_comment_open(a, in_comment),
                snippets.skip(k),
            )
        }),
    decreases a.len(),
{
    let k = directives(a, in_comment).len() as int;
    if a.len() == 0 {
        assert(a + b =~= b);
        assert(snippets.skip(0) =~= snippets);
        assert(spine(a + b, in_comment, snippets) =~= spine(a, in_comment, snippets.take(k))
            + spine(b, leaves_comment_open(a, in_comment), snippets.skip(k)));
    } else {
        let t = trim(a[0]);
        let rest = a.drop_first();
        assert((a + b)[0] == a[0]);
        assert((a + b).drop_first() =~= rest + b);
        if in_comment {
            lemma_spine_adds_up(rest, b, !occurs(t, "-->"@), snippets);
        } else if directive(t) is Some {
            let fewer = snippets.drop_first();
            lemma_spine_adds_up(rest, b, false, fewer);
            assert(snippets.take(k)[0] == snippets[0]);
            assert(snippets.take(k).drop_first() =~= fewer.take(k - 1));
            assert(snippets.skip(k) =~= fewer.skip(k - 1));
            assert(spine(a + b, in_comment, snippets) =~= spine(a, in_comment, snippets.take(k))
                + spine(b, leaves_comment_open(a, in_comment), snippets.skip(k)));
        } else {
            lemma_spine_adds_up(rest, b, opens_comment(t), snippets);
            assert(spine(a + b, in_comment, snippets) =~= spine(a, in_comment, snippets.take(k))
                + spine(b, leaves_comment_open(a, in_comment), snippets.skip(k)));
        }
    }
}

/// Each directive of a spine becomes its own snippet: a text `a`, ended by a line
/// feed and outside a comment, and a text `b` behind it are expanded one behind
/// the other, `a` with the first snippets, as many as it has directives, and `b`
/// with the rest. So it is with the directives that are listed.
pub proof fn law_each_directive_gets_its_own_snippet(
    a: Seq<char>,
    b: Seq<char>,
    snippets: Seq<(Seq<char>, Seq<char>)>,
)
    requires
        !leaves_comment_open(lines(a.push('\n')), false),
        directives(lines(a.push('\n')), false).len() <= snippets.len(),
    ensures
        ({
            let k = directives(lines(a.push('\n')), false).len() as int;
            &&& spine(lines(a.push('\n') + b), false, snippets) == spine(
                lines(a.push('\n')),
                false,
                snippets.take(k),
            ) + spine(lines(b), false, snippets.skip(k))
            &&& directives(lines(a.push('\n') + b), false) == directives(
                lines(a.push('\n')),
                false,
            ) + directives(lines(b), false)
        }),
{
    law_lines_add_up(a, b);
    lemma_spine_adds_up(lines(a.push('\n')), lines(b), false, snippets);
    lemma_directives_add_up(lines(a.push('\n')), lines(b), false);
}

/// One line of a spine: a directive becomes its snippet between fences of five
/// tildes, a comment of several lines is dropped from the line that opens it to
/// the one that closes it, and any other line stays.
pub proof fn law_lines_of_a_spine(
    line: Seq<char>,
    lang: Seq<char>,
    body: Seq<char>,
    attrs: Seq<(Seq<char>, Seq<char>)>,
)
    ensures
        ({
            let t = trim(line);
            let one = seq![(lang, body)];
            let none = Seq::<(Seq<char>, Seq<char>)>::empty();
            let opens = begins(t, "<!--"@) && !occurs(t, "-->"@);
            &&& directive(t) == Some(attrs) ==> directives(seq![line], false) == seq![attrs]
                && spine(seq![line], false, one) == "\n~~~~~"@ + lang + "\n"@ + drop_back(
                body,
                Class::Space,
            ) + "\n~~~~~\n"@
            &&& directive(t) is None && !opens ==> spine(seq![line], false, none) == line.push(
                '\n',
            ) && directives(seq![line], false).len() == 0
            &&& directive(t) is None && opens ==> spine(seq![line], false, none) == Seq::<
                char,
            >::empty() && directives(seq![line], false).len() == 0
            &&& spine(seq![line], true, none) == Seq::<char>::empty() && directives(
                seq![line],
                true,
            ).len() == 0
        }),
{
    let t = trim(line);
    let ls = seq![line];
    assert(ls.drop_first() =~= seq![]);
    reveal_with_fuel(spine, 2);
    reveal_with_fuel(directives, 2);
    let none = Seq::<(Seq<char>, Seq<char>)>::empty();
    let one = seq![(lang, body)];
    let e = Seq::<char>::empty();
    assert(spine(ls.drop_first(), true, none) =~= e && spine(ls.drop_first(), false, none) =~= e);
    assert(spine(ls.drop_first(), false, one.drop_first()) =~= e);
    assert(directives(ls.drop_first(), true) =~= seq![] && directives(ls.drop_first(), false)
        =~= seq![]);
    if directive(t) is Some {
        assert(spine(ls, false, one) == fenced(lang, body) + e);
    } else if opens_comment(t) {
        assert(spine(ls, false, none) =~= e);
    } else {
        assert(spine(ls, false, none) == line.push('\n') + e);
    }
    assert(seq![attrs] + Seq::<Seq<(Seq<char>, Seq<char>)>>::empty() =~= seq![attrs]);
    let f = fenced(lang, body);
    assert(f + Seq::<char>::empty() =~= f);
    assert(line.push('\n') + Seq::<char>::empty() =~= line.push('\n'));
}

/// A directive is a comment on a line of its own whose first word is `snippet`;
/// its other words give its attributes.
pub proof fn law_directives_are_comments(inner: Seq<char>, line: Seq<char>)
    ensures
        words(inner).len() > 0 && words(inner)[0] == "snippet"@ ==> directive(
            "<!--"@ + inner + "-->"@,
        ) == Some(attributes(words(inner).drop_first())),
        words(inner).len() == 0 || words(inner)[0] != "snippet"@ ==> directive(
            "<!--"@ + inner + "-->"@,
        ) is None,
        directive(line) is Some ==> exists|i: Seq<char>| line == #[trigger] ("<!--"@ + i) + "-->"@,
{
    let s = "<!--"@ + inner + "-->"@;
    assert(s =~= "<!--"@ + (inner + "-->"@));
    law_prefix_and_suffix_come_off("<!--"@, inner + "-->"@);
    law_prefix_and_suffix_come_off("-->"@, inner);
    lemma_words_trim(inner);
    if directive(line) is Some {
        law_prefix_and_suffix_come_off("<!--"@, line);
        let rest = behind(line, "<!--"@)->0;
        law_prefix_and_suffix_come_off("-->"@, rest);
        let i = before(rest, "-->"@)->0;
        assert(line =~= ("<!--"@ + i) + "-->"@);
    }
}

/// An attribute is a word with an equals sign: what stands before the first one
/// is its key. Of several with one key the last counts.
pub proof fn law_the_last_attribute_counts(
    ws: Seq<Seq<char>>,
    key: Seq<char>,
    value: Seq<char>,
    other: Seq<char>,
)
    requires
        !key.contains('='),
    ensures
        attributes(ws.push(key.push('=') + value)) == attributes(ws).push((key, value)),
        attributes(ws.push(key)) == attributes(ws),
        attributes(Seq::<Seq<char>>::empty()).len() == 0,
        attr(attributes(ws).push((key, value)), key) == Some(value),
        other != key ==> attr(attributes(ws).push((key, value)), other) == attr(
            attributes(ws),
            other,
        ),
        attr(Seq::<(Seq<char>, Seq<char>)>::empty(), key) is None,
{
    law_a_text_is_cut_at_the_first(key, '=', value);
    assert(ws.push(key.push('=') + value).drop_last() =~= ws);
    assert(ws.push(key).drop_last() =~= ws);
    assert(attributes(ws).push((key, value)).drop_last() =~= attributes(ws));
}

/// A range of lines that is cut counts from one and holds both its ends. Two
/// ranges that follow one another make up the range from the first to the last.
pub proof fn law_ranges_of_lines_add_up(src: Seq<char>, a: int, b: int, c: int)
    requires
        1 <= a <= b,
        b < c,
    ensures
        a <= lines(src).len() ==> lines_between(src, a, a) == lines(src)[a - 1],
        b < lines(src).len() ==> lines_between(src, a, c) == lines_between(src, a, b) + "\n"@
            + lines_between(src, b + 1, c),
        b >= lines(src).len() ==> lines_between(src, a, c) == lines_between(src, a, b),
        a > lines(src).len() ==> lines_between(src, a, b) == Seq::<char>::empty(),
{
    let ls = lines(src);
    if a <= ls.len() {
        assert(ls.subrange(a - 1, a) =~= seq![ls[a - 1]]);
    }
    if b < ls.len() {
        let to = if c < ls.len() {
            c
        } else {
            ls.len() as int
        };
        let x = ls.subrange(a - 1, b);
        let y = ls.subrange(b, to);
        assert(x + y =~= ls.subrange(a - 1, to));
        law_joining_adds_up(x, y, "\n"@);
    }
}

/// A range is written with its first and its last line and a dash between them.
pub proof fn law_ranges_are_read(src: Seq<char>, a: nat, b: nat)
    requires
        a <= usize::MAX,
        b <= usize::MAX,
    ensures
        ranged(src, dec(a).push('-') + dec(b)) == Ok::<_, SnippetError<Seq<char>>>(
            lines_between(src, a as int, b as int),
        ),
        range_sound(dec(a).push('-') + dec(b)) == (1 <= a <= b),
{
    let s = dec(a).push('-') + dec(b);
    law_numbers_read_back(a, usize::MAX as nat);
    law_numbers_read_back(b, usize::MAX as nat);
    assert(s[dec(a).len() as int] == '-');
    assert forall|j: int| 0 <= j < dec(a).len() implies s[j] != '-' by {
        assert(s[j] == dec(a)[j]);
    }
    lemma_position_is(s, '-', dec(a).len() as int);
    assert(range_first(s) =~= dec(a));
    let rest = s.skip(dec(a).len() as int + 1);
    assert(rest =~= dec(b));
    lemma_position_is(rest, '-', dec(b).len() as int);
    assert(range_second(s) =~= dec(b));
}

/// Where the kinds before `i` are not named, looking goes on at `i`.
proof fn lemma_named_kind(attrs: Seq<(Seq<char>, Seq<char>)>, from: int, i: int)
    requires
        0 <= from <= i <= kinds().len(),
        forall|j: int| from <= j < i ==> attr(attrs, #[trigger] kinds()[j]) is None,
    ensures
        named_kind(attrs, from) == named_kind(attrs, i),
    decreases i - from,
{
    if from < i {
        assert(attr(attrs, kinds()[from]) is None);
        lemma_named_kind(attrs, from + 1, i);
    }
}

/// A snippet is what its directive names. Lines come before an item; of several
/// kinds of item the first of `fn`, `struct`, `enum`, `impl`, `trait`, `type`,
/// `const` and `static` counts, and the attribute gives the name that this
/// keyword declares; a directive that names none of them means the whole file,
/// white space at its end aside. A number says which declaration of the name is
/// meant, else it is the first. A directive without a file is an error.
pub proof fn law_a_snippet_is_what_its_directive_names(
    attrs: Seq<(Seq<char>, Seq<char>)>,
    src: Seq<char>,
    i: int,
    n: nat,
)
    requires
        n <= usize::MAX,
    ensures
        ({
            let order = seq![
                "fn"@,
                "struct"@,
                "enum"@,
                "impl"@,
                "trait"@,
                "type"@,
                "const"@,
                "static"@,
            ];
            let path = attr(attrs, "file"@)->0;
            let lang = if attr(attrs, "lang"@) is Some {
                attr(attrs, "lang"@)->0
            } else {
                language(path)
            };
            let whole = |body: Result<Seq<char>, SnippetError<Seq<char>>>|
                match body {
                    Ok(body) => Ok::<_, SnippetError<Seq<char>>>((lang, body)),
                    Err(e) => Err(e),
                };
            &&& attr(attrs, "file"@) is None ==> snippet(attrs, src) == Err::<
                (Seq<char>, Seq<char>),
                SnippetError<Seq<char>>,
            >(SnippetError::MissingFile)
            &&& attr(attrs, "file"@) is Some && attr(attrs, "lines"@) is Some ==> snippet(attrs, src)
                == whole(ranged(src, attr(attrs, "lines"@)->0))
            &&& attr(attrs, "file"@) is Some && attr(attrs, "lines"@) is None && 0 <= i < 8 && attr(
                attrs,
                order[i],
            ) is Some && (forall|j: int| 0 <= j < i ==> attr(attrs, #[trigger] order[j]) is None)
                ==> snippet(attrs, src) == whole(
                item(src, order[i], attr(attrs, order[i])->0, which(attrs), path),
            )
            &&& attr(attrs, "file"@) is Some && attr(attrs, "lines"@) is None && (forall|j: int|
                0 <= j < 8 ==> attr(attrs, #[trigger] order[j]) is None) ==> snippet(attrs, src)
                == Ok::<_, SnippetError<Seq<char>>>((lang, drop_back(src, Class::Space)))
            &&& attr(attrs, "nth"@) is None ==> which(attrs) == 1
            &&& attr(attrs, "nth"@) == Some(dec(n)) ==> which(attrs) == n
        }),
{
    let order = seq![
        "fn"@,
        "struct"@,
        "enum"@,
        "impl"@,
        "trait"@,
        "type"@,
        "const"@,
        "static"@,
    ];
    assert(order =~= kinds());
    law_numbers_read_back(n, usize::MAX as nat);
    if 0 <= i < 8 && forall|j: int| 0 <= j < i ==> attr(attrs, #[trigger] order[j]) is None {
        assert forall|j: int| 0 <= j < i implies attr(attrs, #[trigger] kinds()[j]) is None by {
            assert(order[j] == kinds()[j]);
        }
        lemma_named_kind(attrs, 0, i);
    }
    if forall|j: int| 0 <= j < 8 ==> attr(attrs, #[trigger] order[j]) is None {
        assert forall|j: int| 0 <= j < 8 implies attr(attrs, #[trigger] kinds()[j]) is None by {
            assert(order[j] == kinds()[j]);
        }
        lemma_named_kind(attrs, 0, 8);
    }
}

/// The language of a source goes by the extension of its file.
pub proof fn law_languages_go_by_extension(path: Seq<char>)
    ensures
        extension(path) == Some("rs"@) ==> language(path) == "rust"@,
        extension(path) == Some("sh"@) ==> language(path) == "bash"@,
        extension(path) == Some("toml"@) ==> language(path) == "toml"@,
        extension(path) == Some("yaml"@) ==> language(path) == "yaml"@,
        extension(path) == Some("yml"@) ==> language(path) == "yaml"@,
        extension(path) == Some("json"@) ==> language(path) == "json"@,
        extension(path) == Some("xml"@) ==> language(path) == "xml"@,
        extension(path) == Some("java"@) ==> language(path) == "java"@,
        extension(path) is None ==> language(path) == "text"@,
{
    reveal_strlit("rs");
    reveal_strlit("sh");
    reveal_strlit("toml");
    reveal_strlit("yaml");
    reveal_strlit("yml");
    reveal_strlit("json");
    reveal_strlit("xml");
    reveal_strlit("java");
    assert("rs"@[0] != "sh"@[0]);
    assert("yaml"@[0] != "toml"@[0]);
    assert("json"@[0] != "toml"@[0] && "json"@[0] != "yaml"@[0]);
    assert("java"@[1] != "json"@[1]);
    assert("java"@[0] != "toml"@[0] && "java"@[0] != "yaml"@[0]);
    assert("yml"@[0] != "xml"@[0]);
}

} // verus!

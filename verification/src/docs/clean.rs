//! Cleaning the markdown of a documentation page before it is converted.

use vstd::prelude::*;

use crate::docs::patterns::{pattern_replaced, pattern_replaced_first, replace_all, replace_first};
use crate::lines::{
    is_word, join, joined, law_joining_adds_up, law_words_add_up, lemma_word_len_is, lines,
    split_lines, split_words, word_len, words,
};
use crate::paths::{file_stem, stem_of};
use crate::text::{
    begins, begins_with, behind, chars_of, cut_prefix, drop_back, drop_front, find_chars, find_from,
    in_class, holds_at, is_blank, is_space, law_prefix_and_suffix_come_off,
    law_the_front_is_dropped, lemma_find_from_is, lemma_nothing_found, occurs, opt_text, same,
    space, strip, stripped, swap, swapped, text_of, texts, trim, trimmed, without_back,
    without_front, Class,
};

verus! {

/// Regions that only the website shows.
pub const HIDE_PATTERN: &'static str =
    r"(?s)\{/\*\s*hide-in-pdf\b.*?\*/\}.*?\{/\*\s*/hide-in-pdf\s*\*/\}";

/// A comment of MDX.
pub const MDX_PATTERN: &'static str = r"(?s)\{/\*.*?\*/\}";

/// The number in front of a file name.
pub const NUMBER_PATTERN: &'static str = r"^\d+[-_]?";

// ---------------------------------------------------------------------------
// Upper case
// ---------------------------------------------------------------------------

/// `c` in upper case, which can be several characters.
pub uninterp spec fn upper_char(c: char) -> Seq<char>;

/// `s` in upper case.
pub uninterp spec fn upper_text(s: Seq<char>) -> Seq<char>;

/// Calls `char::to_uppercase`: the characters it yields are those of `upper_char`.
#[verifier::external_body]
fn char_upper(c: char) -> (r: String)
    ensures
        r@ == upper_char(c),
{
    c.to_uppercase().collect::<String>()
}

/// Calls `str::to_uppercase`: the text is that of `upper_text`.
#[verifier::external_body]
fn text_upper(s: &str) -> (r: String)
    ensures
        r@ == upper_text(s@),
{
    s.to_uppercase()
}

/// A word with its first character in upper case.
pub open spec fn capitalized(w: Seq<char>) -> Seq<char> {
    if w.len() == 0 {
        seq![]
    } else {
        upper_char(w[0]) + w.drop_first()
    }
}

/// The words of `s`, capitalized, with one space between each two.
pub open spec fn title_cased(s: Seq<char>) -> Seq<char> {
    join(words(s).map_values(|w: Seq<char>| capitalized(w)), " "@)
}

/// A word whose first character is given in upper case.
pub fn with_first(upper: &str, word: &str) -> (r: String)
    requires
        word@.len() > 0,
    ensures
        r@ == upper@ + word@.drop_first(),
{
    let v = chars_of(word);
    let rest = text_of(&v, 1, v.len());
    assert(rest@ =~= word@.drop_first());
    let mut r = String::new();
    r.append(upper);
    r.append(rest.as_str());
    assert(r@ =~= upper@ + word@.drop_first());
    r
}

/// Capitalizes every word of `s`.
pub fn title_case(s: &str) -> (r: String)
    ensures
        r@ == title_cased(s@),
{
    let ws = split_words(s);
    let mut out: Vec<String> = Vec::new();
    let mut i: usize = 0;
    let ghost want = words(s@).map_values(|w: Seq<char>| capitalized(w));
    while i < ws.len()
        invariant
            i <= ws.len(),
            texts(ws@) == words(s@),
            want == words(s@).map_values(|w: Seq<char>| capitalized(w)),
            texts(out@) == want.take(i as int),
        decreases ws.len() - i,
    {
        let w: &str = ws[i].as_str();
        let v = chars_of(w);
        let mut t = String::new();
        if v.len() > 0 {
            let first = char_upper(v[0]);
            t = with_first(first.as_str(), w);
        }
        assert(texts(ws@)[i as int] == ws@[i as int]@);
        assert(t@ == want[i as int]);
        out.push(t);
        assert(texts(out@) =~= want.take(i as int).push(t@));
        assert(want.take(i + 1) =~= want.take(i as int).push(t@));
        i = i + 1;
    }
    assert(want.take(i as int) =~= want);
    joined(&out, " ")
}

// ---------------------------------------------------------------------------
// Emoji
// ---------------------------------------------------------------------------

/// A character that the fonts of the manuals do not have: an emoji, a symbol,
/// or what joins them.
pub open spec fn is_emoji(c: char) -> bool {
    ||| '\u{1F000}' <= c <= '\u{1FAFF}'
    ||| '\u{2600}' <= c <= '\u{27BF}'
    ||| '\u{2300}' <= c <= '\u{23FF}'
    ||| '\u{2B00}' <= c <= '\u{2BFF}'
    ||| c == '\u{FE0F}'
    ||| c == '\u{200D}'
}

/// `s` without its emoji.
pub open spec fn plain(s: Seq<char>) -> Seq<char>
    decreases s.len(),
{
    if s.len() == 0 {
        seq![]
    } else if is_emoji(s.last()) {
        plain(s.drop_last())
    } else {
        plain(s.drop_last()).push(s.last())
    }
}

/// Removes the emoji from a text.
pub fn strip_emoji(s: &str) -> (r: String)
    ensures
        r@ == plain(s@),
{
    let v = chars_of(s);
    let mut r = String::new();
    let mut i: usize = 0;
    assert(v@.take(0) =~= seq![]);
    while i < v.len()
        invariant
            i <= v.len(),
            v@ == s@,
            r@ == plain(v@.take(i as int)),
        decreases v.len() - i,
    {
        let c: char = v[i];
        assert(v@.take(i + 1).drop_last() =~= v@.take(i as int));
        if !(('\u{1F000}' <= c && c <= '\u{1FAFF}') || ('\u{2600}' <= c && c <= '\u{27BF}') || (
        '\u{2300}' <= c && c <= '\u{23FF}') || ('\u{2B00}' <= c && c <= '\u{2BFF}') || c
            == '\u{FE0F}' || c == '\u{200D}') {
            r.push(c);
        }
        i = i + 1;
    }
    assert(v@.take(i as int) =~= s@);
    r
}

// ---------------------------------------------------------------------------
// Front matter
// ---------------------------------------------------------------------------

/// The title that the first `title:` line names, without blanks and quotes around it.
pub open spec fn title_in(ls: Seq<Seq<char>>) -> Option<Seq<char>>
    decreases ls.len(),
{
    if ls.len() == 0 {
        None
    } else {
        match behind(ls[0], "title:"@) {
            Some(t) => Some(strip(trim(t), Class::Two('"', '\''))),
            None => title_in(ls.drop_first()),
        }
    }
}

/// The title in the front matter of `text`, and what stands behind the front
/// matter. Without front matter the whole text is the body.
pub open spec fn front_matter(text: Seq<char>) -> (Option<Seq<char>>, Seq<char>) {
    match behind(text, "---"@) {
        Some(rest) => match find_from(rest, "\n---"@, 0) {
            Some(end) => (
                title_in(lines(rest.take(end))),
                drop_front(rest.skip(end + 4), Class::One('\n')),
            ),
            None => (None, text),
        },
        None => (None, text),
    }
}

/// Finds the title among the lines of front matter.
fn find_title(ls: &Vec<String>) -> (r: Option<String>)
    ensures
        opt_text(r) == title_in(texts(ls@)),
{
    let mut i: usize = 0;
    let ghost all = texts(ls@);
    assert(all.skip(0) =~= all);
    while i < ls.len()
        invariant
            i <= ls.len(),
            all == texts(ls@),
            title_in(all.skip(i as int)) == title_in(all),
        decreases ls.len() - i,
    {
        assert(all.skip(i as int)[0] == ls@[i as int]@);
        assert(all.skip(i as int).drop_first() =~= all.skip(i + 1));
        match cut_prefix(ls[i].as_str(), "title:") {
            Some(t) => {
                let u = trimmed(t.as_str());
                return Some(stripped(u.as_str(), Class::Two('"', '\'')));
            },
            None => {},
        }
        i = i + 1;
    }
    None
}

/// Splits a page into the title of its front matter and its body.
pub fn split_frontmatter(text: &str) -> (r: (Option<String>, String))
    ensures
        (opt_text(r.0), r.1@) == front_matter(text@),
{
    match cut_prefix(text, "---") {
        Some(rest) => {
            let v = chars_of(rest.as_str());
            let mark = chars_of("\n---");
            proof {
                reveal_strlit("\n---");
            }
            match find_chars(&v, &mark, 0) {
                Some(end) => {
                    let fm = text_of(&v, 0, end);
                    assert(fm@ =~= rest@.take(end as int));
                    let tail = text_of(&v, end + 4, v.len());
                    assert(tail@ =~= rest@.skip(end + 4));
                    let body = without_front(tail.as_str(), Class::One('\n'));
                    let ls = split_lines(fm.as_str());
                    (find_title(&ls), body)
                },
                None => (None, text.to_owned()),
            }
        },
        None => (None, text.to_owned()),
    }
}

// ---------------------------------------------------------------------------
// Lines
// ---------------------------------------------------------------------------

/// How many characters of a fence stand at the front of `s`.
pub open spec fn fence_len(s: Seq<char>) -> int
    decreases s.len(),
{
    if s.len() > 0 && (s[0] == '`' || s[0] == '~') {
        1 + fence_len(s.drop_first())
    } else {
        0
    }
}

/// A line that only the website understands.
pub open spec fn is_site_line(t: Seq<char>) -> bool {
    ||| begins(t, "import "@)
    ||| begins(t, "export "@)
    ||| begins(t, "<Tabs"@)
    ||| begins(t, "</Tabs"@)
    ||| begins(t, "<TabItem"@)
    ||| begins(t, "</TabItem"@)
}

/// The heading of an admonition whose kind is given in upper case.
pub open spec fn admonition_text(upper: Seq<char>, label: Seq<char>) -> Seq<char> {
    if label.len() == 0 {
        "**"@ + upper + "**\n\n"@
    } else {
        "**"@ + upper + " — "@ + label + "**\n\n"@
    }
}

/// The label of an admonition line, given what follows the colons.
pub open spec fn admonition_label(rest: Seq<char>) -> Seq<char> {
    if word_len(rest) < rest.len() {
        strip(trim(rest.skip(word_len(rest) + 1)), Class::Two('[', ']'))
    } else {
        seq![]
    }
}

/// What an admonition line becomes, given what follows the colons: a closing
/// line is a blank one.
pub open spec fn admonition_line(rest: Seq<char>) -> Seq<char> {
    if word_len(rest) == 0 {
        "\n"@
    } else {
        admonition_text(upper_text(rest.take(word_len(rest))), admonition_label(rest))
    }
}

/// What one line becomes, and the fence that is open behind it. Inside a fence
/// every line stays; a fence without a language is tagged as text.
pub open spec fn cleaned_line(fence: Option<Seq<char>>, line: Seq<char>) -> (
    Seq<char>,
    Option<Seq<char>>,
) {
    let t = drop_front(line, Class::Space);
    match fence {
        Some(f) => (
            line.push('\n'),
            if drop_back(t, Class::Space) == f {
                None
            } else {
                Some(f)
            },
        ),
        None => if begins(t, "```"@) || begins(t, "~~~"@) {
            let marker = t.take(fence_len(t));
            (
                if trim(t.skip(fence_len(t))).len() == 0 {
                    line.take(line.len() - t.len() + fence_len(t)) + "text\n"@
                } else {
                    line.push('\n')
                },
                Some(marker),
            )
        } else if is_site_line(t) {
            (seq![], None)
        } else if begins(t, ":::"@) {
            (admonition_line(t.skip(3)), None)
        } else {
            (plain(line).push('\n'), None)
        },
    }
}

/// What the lines become, read with `fence` open.
pub open spec fn cleaned_lines(fence: Option<Seq<char>>, ls: Seq<Seq<char>>) -> Seq<char>
    decreases ls.len(),
{
    if ls.len() == 0 {
        seq![]
    } else {
        let (out, next) = cleaned_line(fence, ls[0]);
        out + cleaned_lines(next, ls.drop_first())
    }
}

/// The fence characters at the front of `v[from..]`, as the index behind them.
fn fence_end(v: &Vec<char>, from: usize) -> (r: usize)
    requires
        from <= v.len(),
    ensures
        from <= r <= v.len(),
        r - from == fence_len(v@.skip(from as int)),
{
    let mut i: usize = from;
    while i < v.len() && (v[i] == '`' || v[i] == '~')
        invariant
            from <= i <= v.len(),
            i - from + fence_len(v@.skip(i as int)) == fence_len(v@.skip(from as int)),
        decreases v.len() - i,
    {
        assert(v@.skip(i as int).drop_first() =~= v@.skip(i + 1));
        i = i + 1;
    }
    i
}

/// `drop_front` leaves an end of the text.
proof fn lemma_drop_front(s: Seq<char>, k: Class)
    ensures
        drop_front(s, k).len() <= s.len(),
        drop_front(s, k) == s.skip(s.len() - drop_front(s, k).len()),
    decreases s.len(),
{
    if s.len() > 0 && in_class(k, s[0]) {
        lemma_drop_front(s.drop_first(), k);
        let t = drop_front(s, k);
        assert(s.drop_first().skip(s.len() - 1 - t.len()) =~= s.skip(s.len() - t.len()));
    } else {
        assert(s.skip(0) =~= s);
    }
}

/// Writes the heading of an admonition.
pub fn admonition(upper: &str, label: &str) -> (r: String)
    ensures
        r@ == admonition_text(upper@, label@),
{
    let mut r = String::new();
    r.append("**");
    r.append(upper);
    if label.is_empty() {
        r.append("**\n\n");
    } else {
        r.append(" — ");
        r.append(label);
        r.append("**\n\n");
    }
    assert(r@ =~= admonition_text(upper@, label@));
    r
}

/// Rewrites an admonition line, given what follows the colons.
fn clean_admonition(rest: &str) -> (r: String)
    ensures
        r@ == admonition_line(rest@),
{
    let v = chars_of(rest);
    let mut i: usize = 0;
    while i < v.len() && !space(v[i])
        invariant
            i <= v.len(),
            v@ == rest@,
            forall|j: int| 0 <= j < i ==> !is_space(#[trigger] v@[j]),
        decreases v.len() - i,
    {
        i = i + 1;
    }
    proof {
        lemma_word_len_is(rest@, i as int);
    }
    if i == 0 {
        return "\n".to_owned();
    }
    let kind = text_of(&v, 0, i);
    assert(kind@ =~= rest@.take(i as int));
    let upper = text_upper(kind.as_str());
    let mut label = String::new();
    if i < v.len() {
        let tail = text_of(&v, i + 1, v.len());
        assert(tail@ =~= rest@.skip(i + 1));
        let t = trimmed(tail.as_str());
        label = stripped(t.as_str(), Class::Two('[', ']'));
    }
    assert(label@ =~= admonition_label(rest@));
    admonition(upper.as_str(), label.as_str())
}

/// Whether a line is one that only the website understands.
fn site_line(t: &str) -> (r: bool)
    ensures
        r == is_site_line(t@),
{
    begins_with(t, "import ") || begins_with(t, "export ") || begins_with(t, "<Tabs")
        || begins_with(t, "</Tabs") || begins_with(t, "<TabItem") || begins_with(t, "</TabItem")
}

/// Cleans one line.
pub fn clean_line(fence: &Option<String>, line: &str) -> (r: (String, Option<String>))
    ensures
        (r.0@, opt_text(r.1)) == cleaned_line(opt_text(*fence), line@),
{
    let t = without_front(line, Class::Space);
    proof {
        lemma_drop_front(line@, Class::Space);
    }
    let mut whole = line.to_owned();
    whole.push('\n');
    match fence {
        Some(f) => {
            let u = without_back(t.as_str(), Class::Space);
            if same(u.as_str(), f.as_str()) {
                (whole, None)
            } else {
                (whole, Some(f.clone()))
            }
        },
        None => {
            if begins_with(t.as_str(), "```") || begins_with(t.as_str(), "~~~") {
                let v = chars_of(t.as_str());
                let m: usize = fence_end(&v, 0);
                assert(v@.skip(0) =~= t@);
                let marker = text_of(&v, 0, m);
                assert(marker@ =~= t@.take(m as int));
                let info = text_of(&v, m, v.len());
                assert(info@ =~= t@.skip(m as int));
                let info = trimmed(info.as_str());
                if info.as_str().is_empty() {
                    let w = chars_of(line);
                    let mut head = text_of(&w, 0, w.len() - v.len() + m);
                    assert(head@ =~= line@.take(line@.len() - t@.len() + m));
                    head.append("text\n");
                    (head, Some(marker))
                } else {
                    (whole, Some(marker))
                }
            } else if site_line(t.as_str()) {
                (String::new(), None)
            } else {
                match cut_prefix(t.as_str(), ":::") {
                    Some(rest) => {
                        proof {
                            reveal_strlit(":::");
                        }
                        (clean_admonition(rest.as_str()), None)
                    },
                    None => {
                        let mut p = strip_emoji(line);
                        p.push('\n');
                        (p, None)
                    },
                }
            }
        },
    }
}

/// Cleans the lines of a page.
pub fn clean_lines(ls: &Vec<String>) -> (r: String)
    ensures
        r@ == cleaned_lines(None, texts(ls@)),
{
    let mut out = String::new();
    let mut fence: Option<String> = None;
    let mut i: usize = 0;
    let ghost all = texts(ls@);
    assert(all.skip(0) =~= all);
    assert(out@ + cleaned_lines(None, all) =~= cleaned_lines(None, all));
    while i < ls.len()
        invariant
            i <= ls.len(),
            all == texts(ls@),
            out@ + cleaned_lines(opt_text(fence), all.skip(i as int)) == cleaned_lines(None, all),
        decreases ls.len() - i,
    {
        let ghost rest = all.skip(i as int);
        let ghost before = out@;
        assert(rest[0] == ls@[i as int]@);
        assert(rest.drop_first() =~= all.skip(i + 1));
        let (text, next) = clean_line(&fence, ls[i].as_str());
        out.append(text.as_str());
        assert(out@ + cleaned_lines(opt_text(next), all.skip(i + 1)) =~= before + (text@
            + cleaned_lines(opt_text(next), all.skip(i + 1))));
        fence = next;
        i = i + 1;
    }
    assert(all.skip(i as int).len() == 0);
    assert(out@ + cleaned_lines(opt_text(fence), all.skip(i as int)) =~= out@);
    out
}

// ---------------------------------------------------------------------------
// Pages
// ---------------------------------------------------------------------------

/// The body of a page without hidden regions and MDX comments.
pub open spec fn visible(body: Seq<char>) -> Option<Seq<char>> {
    match pattern_replaced(HIDE_PATTERN@, body, ""@) {
        Some(b) => pattern_replaced(MDX_PATTERN@, b, ""@),
        None => None,
    }
}

/// Whether a body brings its own first heading.
pub open spec fn has_heading(body: Seq<char>) -> bool {
    begins(drop_front(body, Class::Space), "#"@)
}

/// A heading of the first level.
pub open spec fn heading(title: Seq<char>) -> Seq<char> {
    "# "@ + title + "\n\n"@
}

/// The heading that a page gets in front of its visible body: the title of its
/// front matter, or its file name where it has no heading of its own. `numbered`
/// is the file name without its number.
pub open spec fn page_heading(
    title: Option<Seq<char>>,
    body: Seq<char>,
    numbered: Option<Seq<char>>,
) -> Option<Seq<char>> {
    match title {
        Some(t) => Some(heading(trim(plain(t)))),
        None => if has_heading(body) {
            Some(seq![])
        } else {
            match numbered {
                Some(n) => Some(heading(title_cased(swap(n, Class::Two('-', '_'), ' ')))),
                None => None,
            }
        },
    }
}

/// The cleaned page, or none where a pattern does not compile.
pub open spec fn cleaned_page(path: Seq<char>, raw: Seq<char>) -> Option<Seq<char>> {
    let (title, body) = front_matter(raw);
    match visible(body) {
        Some(b) => match page_heading(
            title,
            b,
            pattern_replaced_first(NUMBER_PATTERN@, file_stem(path)->0, ""@),
        ) {
            Some(h) => Some(h + cleaned_lines(None, lines(b))),
            None => None,
        },
        None => None,
    }
}

/// Writes a heading of the first level.
pub fn write_heading(title: &str) -> (r: String)
    ensures
        r@ == heading(title@),
{
    let mut r = String::new();
    r.append("# ");
    r.append(title);
    r.append("\n\n");
    assert(r@ =~= heading(title@));
    r
}

/// Puts a page together from its heading and its visible body.
pub fn clean_body(head: &str, body: &str) -> (r: String)
    ensures
        r@ == head@ + cleaned_lines(None, lines(body@)),
{
    let ls = split_lines(body);
    let text = clean_lines(&ls);
    let mut r = head.to_owned();
    r.append(text.as_str());
    r
}

/// Cleans the page `raw` of the file `path`: drops what only the website shows,
/// gives it a heading, and rewrites its lines.
pub fn clean_markdown(path: &str, raw: &str) -> (r: Option<String>)
    requires
        file_stem(path@) is Some,
    ensures
        opt_text(r) == cleaned_page(path@, raw@),
{
    let (title, body) = split_frontmatter(raw);
    let body = match replace_all(HIDE_PATTERN, body.as_str(), "") {
        Some(b) => b,
        None => {
            return None;
        },
    };
    let body = match replace_all(MDX_PATTERN, body.as_str(), "") {
        Some(b) => b,
        None => {
            return None;
        },
    };
    let head: String = match title {
        Some(t) => {
            let p = strip_emoji(t.as_str());
            let q = trimmed(p.as_str());
            write_heading(q.as_str())
        },
        None => {
            let front = without_front(body.as_str(), Class::Space);
            if begins_with(front.as_str(), "#") {
                String::new()
            } else {
                let stem = match stem_of(path) {
                    Some(s) => s,
                    None => {
                        return None;
                    },
                };
                match replace_first(NUMBER_PATTERN, stem.as_str(), "") {
                    Some(n) => {
                        let t = swapped(n.as_str(), Class::Two('-', '_'), ' ');
                        let c = title_case(t.as_str());
                        write_heading(c.as_str())
                    },
                    None => {
                        return None;
                    },
                }
            }
        },
    };
    Some(clean_body(head.as_str(), body.as_str()))
}

// ---------------------------------------------------------------------------
// What holds of every page
// ---------------------------------------------------------------------------

/// No emoji is left, and stripping again changes nothing.
pub proof fn law_no_emoji_is_left(s: Seq<char>)
    ensures
        forall|i: int| 0 <= i < plain(s).len() ==> !is_emoji(#[trigger] plain(s)[i]),
        plain(plain(s)) == plain(s),
    decreases s.len(),
{
    if s.len() > 0 {
        law_no_emoji_is_left(s.drop_last());
        if !is_emoji(s.last()) {
            assert(plain(s).drop_last() =~= plain(s.drop_last()));
        }
    }
}

/// Lines, each ended by a line feed.
pub open spec fn kept(ls: Seq<Seq<char>>) -> Seq<char>
    decreases ls.len(),
{
    if ls.len() == 0 {
        seq![]
    } else {
        ls[0].push('\n') + kept(ls.drop_first())
    }
}

/// A line that closes a fence.
pub open spec fn closes(fence: Seq<char>, line: Seq<char>) -> bool {
    drop_back(drop_front(line, Class::Space), Class::Space) == fence
}

/// Fenced code is kept as it is: of the lines behind an open fence none is
/// changed or dropped, up to and including the one that closes it.
pub proof fn law_fenced_code_is_kept(
    fence: Seq<char>,
    code: Seq<Seq<char>>,
    close: Seq<char>,
    rest: Seq<Seq<char>>,
)
    requires
        closes(fence, close),
        forall|i: int| 0 <= i < code.len() ==> !closes(fence, #[trigger] code[i]),
    ensures
        cleaned_lines(Some(fence), code + seq![close] + rest) == kept(code.push(close))
            + cleaned_lines(None, rest),
    decreases code.len(),
{
    let all = code + seq![close] + rest;
    if code.len() == 0 {
        assert(all[0] == close);
        assert(all.drop_first() =~= rest);
        assert(code.push(close).drop_first() =~= seq![]);
        assert(kept(code.push(close).drop_first()) =~= seq![]);
        assert(kept(code.push(close)) =~= close.push('\n'));
    } else {
        let tail = code.drop_first();
        assert(all[0] == code[0]);
        assert(all.drop_first() =~= tail + seq![close] + rest);
        assert(!closes(fence, code[0]));
        assert forall|i: int| 0 <= i < tail.len() implies !closes(fence, #[trigger] tail[i]) by {
            assert(tail[i] == code[i + 1]);
        }
        law_fenced_code_is_kept(fence, tail, close, rest);
        assert(code.push(close).drop_first() =~= tail.push(close));
        assert(code.push(close)[0] == code[0]);
        assert(cleaned_lines(Some(fence), all) =~= kept(code.push(close)) + cleaned_lines(
            None,
            rest,
        ));
    }
}

/// Removing emoji goes piece by piece and takes off these characters alone:
/// pictures, symbols and arrows of the ranges from U+1F000 to U+1FAFF, U+2600 to
/// U+27BF, U+2300 to U+23FF and U+2B00 to U+2BFF, and the two that join them.
pub proof fn law_only_emoji_are_taken_off(a: Seq<char>, b: Seq<char>, c: char)
    ensures
        plain(a + b) == plain(a) + plain(b),
        plain(Seq::<char>::empty()) == Seq::<char>::empty(),
        (0x1F000 <= c as int <= 0x1FAFF || 0x2600 <= c as int <= 0x27BF || 0x2300 <= c as int
            <= 0x23FF || 0x2B00 <= c as int <= 0x2BFF || c as int == 0xFE0F || c as int == 0x200D)
            ==> plain(seq![c]) == Seq::<char>::empty(),
        !(0x1F000 <= c as int <= 0x1FAFF || 0x2600 <= c as int <= 0x27BF || 0x2300 <= c as int
            <= 0x23FF || 0x2B00 <= c as int <= 0x2BFF || c as int == 0xFE0F || c as int == 0x200D)
            ==> plain(seq![c]) == seq![c],
    decreases b.len(),
{
    reveal_with_fuel(plain, 2);
    assert(seq![c].drop_last() =~= seq![]);
    assert(Seq::<char>::empty().push(c) =~= seq![c]);
    if b.len() == 0 {
        assert(a + b =~= a);
        assert(plain(a) + plain(b) =~= plain(a));
    } else {
        law_only_emoji_are_taken_off(a, b.drop_last(), c);
        assert((a + b).drop_last() =~= a + b.drop_last());
        assert(plain(a + b) =~= plain(a) + plain(b));
    }
}

/// Front matter stands between the first two lines of dashes. What follows it,
/// behind its line feeds, is the body; a text that does not begin with dashes,
/// or whose front matter does not end, is all body and has no title.
pub proof fn law_front_matter_is_taken_off(matter: Seq<char>, body: Seq<char>, text: Seq<char>)
    ensures
        !occurs(matter + "\n--"@, "\n---"@) ==> front_matter(
            "---"@ + matter + "\n---"@ + body,
        ) == (title_in(lines(matter)), drop_front(body, Class::One('\n'))),
        !begins(text, "---"@) ==> front_matter(text) == (None::<Seq<char>>, text),
        !occurs(text, "\n---"@) ==> front_matter("---"@ + text) == (
            None::<Seq<char>>,
            "---"@ + text,
        ),
{
    let n = "\n---"@;
    let rest = matter + n + body;
    let s = "---"@ + matter + n + body;
    assert(s =~= "---"@ + rest);
    assert(behind(s, "---"@) == Some(rest)) by {
        law_prefix_and_suffix_come_off("---"@, rest);
    }
    assert(behind("---"@ + text, "---"@) == Some(text)) by {
        law_prefix_and_suffix_come_off("---"@, text);
    }
    if !occurs(matter + "\n--"@, n) {
        lemma_first_dashes(matter, body);
        reveal_strlit("\n---");
        assert(rest.take(matter.len() as int) =~= matter);
        assert(rest.skip(matter.len() as int + 4) =~= body);
    }
}

/// The first line of dashes is found.
proof fn lemma_first_dashes(matter: Seq<char>, body: Seq<char>)
    requires
        !occurs(matter + "\n--"@, "\n---"@),
    ensures
        find_from(matter + "\n---"@ + body, "\n---"@, 0) == Some(matter.len() as int),
{
    let n = "\n---"@;
    let short = matter + "\n--"@;
    let rest = matter + n + body;
    let m = matter.len() as int;
    lemma_nothing_found(short, n, 0);
    reveal_strlit("\n---");
    reveal_strlit("\n--");
    assert(rest.subrange(m, m + 4) =~= n);
    assert(holds_at(rest, n, m));
    assert forall|j: int| 0 <= j < m implies !(#[trigger] holds_at(rest, n, j)) by {
        assert(!holds_at(short, n, j));
        assert(short.subrange(j, j + 4) =~= rest.subrange(j, j + 4));
    }
    lemma_find_from_is(rest, n, 0, m);
}

/// The title is that of the first line that begins with its key, without blanks
/// and quotes around it.
pub proof fn law_the_first_title_counts(
    before: Seq<Seq<char>>,
    title: Seq<char>,
    rest: Seq<Seq<char>>,
)
    requires
        forall|i: int| 0 <= i < before.len() ==> !begins(#[trigger] before[i], "title:"@),
    ensures
        title_in(before + seq!["title:"@ + title] + rest) == Some(
            strip(trim(title), Class::Two('"', '\'')),
        ),
        title_in(before) is None,
    decreases before.len(),
{
    let all = before + seq!["title:"@ + title] + rest;
    if before.len() == 0 {
        assert(all[0] == "title:"@ + title);
        law_prefix_and_suffix_come_off("title:"@, title);
    } else {
        assert(all[0] == before[0]);
        let fewer = before.drop_first();
        assert forall|i: int| 0 <= i < fewer.len() implies !begins(
            #[trigger] fewer[i],
            "title:"@,
        ) by {
            assert(fewer[i] == before[i + 1]);
        }
        assert(all.drop_first() =~= fewer + seq!["title:"@ + title] + rest);
        law_the_first_title_counts(fewer, title, rest);
    }
}

/// The fence that is open behind lines.
pub open spec fn fence_behind(fence: Option<Seq<char>>, ls: Seq<Seq<char>>) -> Option<Seq<char>>
    decreases ls.len(),
{
    if ls.len() == 0 {
        fence
    } else {
        fence_behind(cleaned_line(fence, ls[0]).1, ls.drop_first())
    }
}

/// Lines are cleaned one behind the other, each with what the lines before it
/// have left open.
pub proof fn law_lines_are_cleaned_in_order(
    fence: Option<Seq<char>>,
    a: Seq<Seq<char>>,
    b: Seq<Seq<char>>,
)
    ensures
        cleaned_lines(fence, a + b) == cleaned_lines(fence, a) + cleaned_lines(
            fence_behind(fence, a),
            b,
        ),
        a.len() == 1 ==> cleaned_lines(fence, a) == cleaned_line(fence, a[0]).0,
    decreases a.len(),
{
    if a.len() == 0 {
        assert(a + b =~= b);
        assert(cleaned_lines(fence, a) + cleaned_lines(fence, b) =~= cleaned_lines(fence, b));
    } else {
        assert((a + b)[0] == a[0]);
        assert((a + b).drop_first() =~= a.drop_first() + b);
        let (out, next) = cleaned_line(fence, a[0]);
        law_lines_are_cleaned_in_order(next, a.drop_first(), b);
        assert(cleaned_lines(fence, a + b) =~= cleaned_lines(fence, a) + cleaned_lines(
            fence_behind(fence, a),
            b,
        ));
        if a.len() == 1 {
            assert(a.drop_first() =~= seq![]);
            assert(cleaned_lines(next, a.drop_first()) =~= seq![]);
            assert(out + Seq::<char>::empty() =~= out);
        }
    }
}

/// Whether a line begins, behind its blanks, with this.
pub open spec fn line_begins(line: Seq<char>, p: Seq<char>) -> bool {
    begins(drop_front(line, Class::Space), p)
}

/// Outside fences, a line of the page stays but for its emoji. What only the
/// website understands is dropped: imports, exports and tabs. A fence opens with
/// three backquotes or tildes, and with no language it is tagged as text; nothing
/// else opens one.
pub proof fn law_ordinary_lines_stay(line: Seq<char>)
    ensures
        ({
            let r = cleaned_line(None, line);
            let fences = line_begins(line, "```"@) || line_begins(line, "~~~"@);
            let site = line_begins(line, "import "@) || line_begins(line, "export "@)
                || line_begins(line, "<Tabs"@) || line_begins(line, "</Tabs"@) || line_begins(
                line,
                "<TabItem"@,
            ) || line_begins(line, "</TabItem"@);
            let note = line_begins(line, ":::"@);
            &&& !fences && !site && !note ==> r == (plain(line).push('\n'), None::<Seq<char>>)
            &&& !fences && site ==> r == (Seq::<char>::empty(), None::<Seq<char>>)
            &&& !fences ==> r.1 is None
            &&& fences ==> r.1 is Some && (r.0 == line.push('\n') || exists|head: Seq<char>|
                r.0 == #[trigger] (head + "text\n"@) && head.len() <= line.len() && line.take(
                    head.len() as int,
                ) == head && trim(line.skip(head.len() as int)).len() == 0)
        }),
{
    let t = drop_front(line, Class::Space);
    law_the_front_is_dropped(line, Class::Space);
    lemma_fence_len(t);
    if line_begins(line, "```"@) || line_begins(line, "~~~"@) {
        let head = line.take(line.len() - t.len() + fence_len(t));
        assert(line.take(head.len() as int) =~= head);
        assert(line.skip(head.len() as int) =~= t.skip(fence_len(t)));
        if cleaned_line(None, line).0 != line.push('\n') {
            assert(cleaned_line(None, line).0 == head + "text\n"@);
        }
    }
}

/// A fence is its run of marks.
proof fn lemma_fence_len(s: Seq<char>)
    ensures
        0 <= fence_len(s) <= s.len(),
        forall|i: int| 0 <= i < fence_len(s) ==> #[trigger] s[i] == '`' || s[i] == '~',
        fence_len(s) < s.len() ==> s[fence_len(s)] != '`' && s[fence_len(s)] != '~',
    decreases s.len(),
{
    if s.len() > 0 && (s[0] == '`' || s[0] == '~') {
        let t = s.drop_first();
        lemma_fence_len(t);
        assert forall|i: int| 0 <= i < fence_len(s) implies #[trigger] s[i] == '`' || s[i]
            == '~' by {
            if i > 0 {
                assert(s[i] == t[i - 1]);
            }
        }
        if fence_len(s) < s.len() {
            assert(t[fence_len(t)] == s[fence_len(s)]);
        }
    }
}

/// A run of at least three backquotes, or of at least three tildes.
pub open spec fn are_marks(marks: Seq<char>) -> bool {
    &&& marks.len() >= 3
    &&& (forall|i: int| 0 <= i < marks.len() ==> #[trigger] marks[i] == '`') || (forall|i: int|
        0 <= i < marks.len() ==> #[trigger] marks[i] == '~')
}

/// A line opens a fence with its marks, blanks in front of them aside. With
/// nothing behind them it is tagged as text; else it stays. The fence is closed
/// by a line with the same marks alone, and by no other, and every line inside
/// stays.
pub proof fn law_fences_are_closed_by_their_marks(
    indent: Seq<char>,
    marks: Seq<char>,
    info: Seq<char>,
    line: Seq<char>,
)
    requires
        is_blank(indent),
        are_marks(marks),
        info.len() > 0 ==> info[0] != '`' && info[0] != '~',
    ensures
        cleaned_line(None, indent + marks + info) == (
            if trim(info).len() == 0 {
                indent + marks + "text\n"@
            } else {
                indent + marks + info + seq!['\n']
            },
            Some(marks),
        ),
        cleaned_line(Some(marks), line) == (
            line.push('\n'),
            if trim(line) == marks {
                None
            } else {
                Some(marks)
            },
        ),
{
    let t = marks + info;
    let whole = indent + marks + info;
    let n = marks.len() as int;
    reveal_strlit("```");
    reveal_strlit("~~~");
    assert(t[0] == marks[0] && t[1] == marks[1] && t[2] == marks[2]);
    assert(whole =~= indent + t);
    assert(drop_front(whole, Class::Space) == t) by {
        law_the_front_is_dropped(whole, Class::Space);
        let k = whole.len() - drop_front(whole, Class::Space).len();
        let x = indent.len() as int;
        assert(whole[x] == t[0]);
        assert(k == x) by {
            if k > x {
                assert(in_class(Class::Space, whole[x]));
            } else if k < x {
                assert(whole[k] == indent[k]);
            }
        }
        assert(whole.skip(k) =~= t);
    }
    if marks[0] == '`' {
        assert(t.subrange(0, 3) =~= "```"@);
    } else {
        assert(t.subrange(0, 3) =~= "~~~"@);
    }
    lemma_fence_len(t);
    assert(fence_len(t) == n) by {
        if fence_len(t) < n {
            assert(t[fence_len(t)] == marks[fence_len(t)]);
        } else if fence_len(t) > n {
            assert(t[n] == info[0]);
        }
    }
    assert(t.take(n) =~= marks);
    assert(t.skip(n) =~= info);
    assert(whole.take(whole.len() - t.len() + n) =~= indent + marks);
    assert(whole.push('\n') =~= indent + marks + info + seq!['\n']);
}

/// An admonition becomes a line in bold: its kind in upper case and, behind a
/// dash, its label, if it has one. The line that closes it becomes an empty one.
pub proof fn law_admonitions_become_bold_lines(kind: Seq<char>, label: Seq<char>)
    requires
        is_word(kind),
    ensures
        admonition_line(kind) == "**"@ + upper_text(kind) + "**\n\n"@,
        strip(trim(label), Class::Two('[', ']')).len() > 0 ==> admonition_line(
            kind.push(' ') + label,
        ) == "**"@ + upper_text(kind) + " — "@ + strip(trim(label), Class::Two('[', ']'))
            + "**\n\n"@,
        admonition_line(Seq::<char>::empty()) == "\n"@,
{
    lemma_word_len_is(kind, kind.len() as int);
    assert(kind.take(kind.len() as int) =~= kind);
    let s = kind.push(' ') + label;
    assert(s[kind.len() as int] == ' ');
    assert forall|j: int| 0 <= j < kind.len() implies !is_space(#[trigger] s[j]) by {
        assert(s[j] == kind[j]);
    }
    lemma_word_len_is(s, kind.len() as int);
    assert(s.take(kind.len() as int) =~= kind);
    assert(s.skip(kind.len() as int + 1) =~= label);
}

/// A page gets one heading: the title of its front matter, else none where the
/// body brings its own, else its file name as a title.
pub proof fn law_a_page_gets_one_heading(
    title: Seq<char>,
    body: Seq<char>,
    name: Seq<char>,
)
    ensures
        page_heading(Some(title), body, Some(name)) == Some(
            "# "@ + trim(plain(title)) + "\n\n"@,
        ),
        line_begins(body, "#"@) ==> page_heading(None, body, Some(name)) == Some(
            Seq::<char>::empty(),
        ),
        !line_begins(body, "#"@) ==> page_heading(None, body, Some(name)) == Some(
            "# "@ + title_cased(swap(name, Class::Two('-', '_'), ' ')) + "\n\n"@,
        ),
{
}

/// A title has the words of the text, each with its first character in upper
/// case and one blank between two.
pub proof fn law_titles_are_made_word_by_word(a: Seq<char>, b: Seq<char>)
    requires
        is_word(a),
    ensures
        title_cased(a) == upper_char(a[0]) + a.drop_first(),
        words(b).len() > 0 ==> title_cased(a.push(' ') + b) == title_cased(a) + " "@
            + title_cased(b),
{
    law_words_add_up(a, ' ', b);
    let f = |w: Seq<char>| capitalized(w);
    assert(words(a).map_values(f) =~= seq![capitalized(a)]);
    assert((words(a) + words(b)).map_values(f) =~= words(a).map_values(f) + words(b).map_values(
        f,
    ));
    law_joining_adds_up(words(a).map_values(f), words(b).map_values(f), " "@);
}

/// What the website hides is taken out of a body before MDX comments are, and a
/// page is its heading and the cleaned lines of what is left.
pub proof fn law_a_page_is_its_heading_and_its_visible_lines(
    path: Seq<char>,
    raw: Seq<char>,
    shown: Seq<char>,
    body: Seq<char>,
)
    requires
        pattern_replaced(HIDE_PATTERN@, front_matter(raw).1, ""@) == Some(shown),
        pattern_replaced(MDX_PATTERN@, shown, ""@) == Some(body),
    ensures
        ({
            let name = pattern_replaced_first(NUMBER_PATTERN@, file_stem(path)->0, ""@);
            match page_heading(front_matter(raw).0, body, name) {
                Some(h) => cleaned_page(path, raw) == Some(h + cleaned_lines(None, lines(body))),
                None => cleaned_page(path, raw) is None,
            }
        }),
{
}

} // verus!

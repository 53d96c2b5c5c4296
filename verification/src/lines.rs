//! Lines, words and joined lists.

use vstd::prelude::*;

use crate::text::{
    char_pos, chars_of, cut, drop_front, in_class, is_space, lemma_position, lemma_position_is,
    position, space, text_of, texts, trim, Class,
};

verus! {

// ---------------------------------------------------------------------------
// Lines
// ---------------------------------------------------------------------------

/// `s` without one carriage return at its end.
pub open spec fn drop_cr(s: Seq<char>) -> Seq<char> {
    if s.len() > 0 && s.last() == '\r' {
        s.drop_last()
    } else {
        s
    }
}

/// The lines of `s`. A line ends at a line feed, or at a carriage return and a
/// line feed; neither belongs to the line, and nothing follows the last one.
pub open spec fn lines(s: Seq<char>) -> Seq<Seq<char>>
    decreases s.len(),
{
    proof {
        lemma_position(s, '\n');
    }
    if s.len() == 0 {
        seq![]
    } else if position(s, '\n') < s.len() {
        seq![drop_cr(s.take(position(s, '\n')))] + lines(s.skip(position(s, '\n') + 1))
    } else {
        seq![s]
    }
}

/// Splits a text into its lines.
pub fn split_lines(s: &str) -> (r: Vec<String>)
    ensures
        texts(r@) == lines(s@),
{
    let v = chars_of(s);
    let n: usize = v.len();
    let mut r: Vec<String> = Vec::new();
    let mut start: usize = 0;
    assert(v@.skip(0) =~= s@);
    assert(texts(r@) + lines(s@) =~= lines(s@));
    while start < n
        invariant
            start <= n == v.len(),
            v@ == s@,
            texts(r@) + lines(v@.skip(start as int)) == lines(s@),
        decreases n - start,
    {
        let ghost rest = v@.skip(start as int);
        let ghost done = texts(r@);
        let end: usize = char_pos(&v, start, '\n');
        if end < n {
            let stop: usize = if end > start && v[end - 1] == '\r' {
                end - 1
            } else {
                end
            };
            assert(v@.subrange(start as int, stop as int) =~= drop_cr(rest.take(end - start)));
            let line = text_of(&v, start, stop);
            r.push(line);
            assert(rest.skip(end - start + 1) =~= v@.skip(end + 1));
            start = end + 1;
        } else {
            assert(v@.subrange(start as int, n as int) =~= rest);
            let line = text_of(&v, start, n);
            r.push(line);
            start = n;
            assert(v@.skip(n as int).len() == 0);
            assert(lines(v@.skip(n as int)) =~= seq![]);
        }
        assert(texts(r@) =~= done.push(r@.last()@));
        assert(texts(r@) + lines(v@.skip(start as int)) =~= done + lines(rest));
    }
    assert(lines(v@.skip(start as int)) =~= seq![]);
    assert(texts(r@) =~= lines(s@));
    r
}

// ---------------------------------------------------------------------------
// Words
// ---------------------------------------------------------------------------

/// How many characters of `s` stand before its first white space.
pub open spec fn word_len(s: Seq<char>) -> int
    decreases s.len(),
{
    if s.len() == 0 || is_space(s[0]) {
        0
    } else {
        1 + word_len(s.drop_first())
    }
}

/// `word_len` is the place of the first white space.
pub proof fn lemma_word_len(s: Seq<char>)
    ensures
        0 <= word_len(s) <= s.len(),
        word_len(s) < s.len() ==> is_space(s[word_len(s)]),
        forall|j: int| 0 <= j < word_len(s) ==> !is_space(#[trigger] s[j]),
    decreases s.len(),
{
    if s.len() == 0 || is_space(s[0]) {
    } else {
        lemma_word_len(s.drop_first());
        assert forall|j: int| 0 <= j < word_len(s) implies !is_space(#[trigger] s[j]) by {
            if j > 0 {
                assert(s.drop_first()[j - 1] == s[j]);
            }
        }
    }
}

/// The place of the first white space is `word_len`.
pub proof fn lemma_word_len_is(s: Seq<char>, p: int)
    requires
        0 <= p <= s.len(),
        p < s.len() ==> is_space(s[p]),
        forall|j: int| 0 <= j < p ==> !is_space(#[trigger] s[j]),
    ensures
        word_len(s) == p,
{
    lemma_word_len(s);
    let q = word_len(s);
    if q < p {
        assert(!is_space(s[q]));
    } else if p < q {
        assert(!is_space(s[p]));
    }
}

/// The words of `s`: its longest parts without white space, in order.
pub open spec fn words(s: Seq<char>) -> Seq<Seq<char>>
    decreases s.len(),
{
    proof {
        lemma_word_len(s);
    }
    if s.len() == 0 {
        seq![]
    } else if is_space(s[0]) {
        words(s.drop_first())
    } else {
        seq![s.take(word_len(s))] + words(s.skip(word_len(s)))
    }
}

/// Splits a text into its words.
pub fn split_words(s: &str) -> (r: Vec<String>)
    ensures
        texts(r@) == words(s@),
{
    let v = chars_of(s);
    let n: usize = v.len();
    let mut r: Vec<String> = Vec::new();
    let mut i: usize = 0;
    assert(v@.skip(0) =~= s@);
    assert(texts(r@) + words(s@) =~= words(s@));
    while i < n
        invariant
            i <= n == v.len(),
            v@ == s@,
            texts(r@) + words(v@.skip(i as int)) == words(s@),
        decreases n - i,
    {
        let ghost rest = v@.skip(i as int);
        let ghost done = texts(r@);
        if space(v[i]) {
            assert(rest.drop_first() =~= v@.skip(i + 1));
            i = i + 1;
        } else {
            let start: usize = i;
            while i < n && !space(v[i])
                invariant
                    start <= i <= n == v.len(),
                    forall|j: int| start <= j < i ==> !is_space(#[trigger] v@[j]),
                decreases n - i,
            {
                i = i + 1;
            }
            proof {
                assert forall|j: int| 0 <= j < i - start implies !is_space(#[trigger] rest[j]) by {
                    assert(!is_space(v@[start + j]));
                }
                lemma_word_len_is(rest, i - start);
                assert(rest.skip(i - start) =~= v@.skip(i as int));
                assert(rest.take(i - start) =~= v@.subrange(start as int, i as int));
                lemma_word_len(rest);
            }
            let word = text_of(&v, start, i);
            r.push(word);
            assert(texts(r@) =~= done.push(word@));
            assert(texts(r@) + words(v@.skip(i as int)) =~= done + words(rest));
        }
    }
    assert(words(v@.skip(i as int)) =~= seq![]);
    assert(texts(r@) =~= words(s@));
    r
}

// ---------------------------------------------------------------------------
// Joining
// ---------------------------------------------------------------------------

/// The parts in order, with `sep` between each two.
pub open spec fn join(parts: Seq<Seq<char>>, sep: Seq<char>) -> Seq<char>
    decreases parts.len(),
{
    if parts.len() == 0 {
        seq![]
    } else if parts.len() == 1 {
        parts[0]
    } else {
        join(parts.drop_last(), sep) + sep + parts.last()
    }
}

/// Joins a list of texts.
pub fn joined(parts: &Vec<String>, sep: &str) -> (r: String)
    ensures
        r@ == join(texts(parts@), sep@),
{
    let mut r = String::new();
    let mut i: usize = 0;
    let ghost all = texts(parts@);
    assert(all.take(0).len() == 0);
    while i < parts.len()
        invariant
            i <= parts.len(),
            all == texts(parts@),
            r@ == join(all.take(i as int), sep@),
        decreases parts.len() - i,
    {
        assert(all.take(i + 1).drop_last() =~= all.take(i as int));
        assert(all.take(i + 1).last() == parts@[i as int]@);
        if i > 0 {
            r.append(sep);
            r.append(parts[i].as_str());
        } else {
            r.append(parts[i].as_str());
            assert(r@ =~= parts@[0]@);
        }
        i = i + 1;
    }
    assert(all.take(i as int) =~= all);
    r
}

/// The lines, each ended by a line feed.
pub open spec fn unlines(parts: Seq<Seq<char>>) -> Seq<char> {
    join(parts, seq!['\n']).push('\n')
}

/// Joins lines with line feeds and ends the last one.
pub fn joined_lines(parts: &Vec<String>) -> (r: String)
    ensures
        r@ == unlines(texts(parts@)),
{
    let mut r = joined(parts, "\n");
    proof {
        reveal_strlit("\n");
        assert("\n"@ =~= seq!['\n']);
    }
    r.push('\n');
    r
}

// ---------------------------------------------------------------------------
// Lines and words that are written and read again
// ---------------------------------------------------------------------------

/// A text without a line feed.
pub open spec fn is_line(s: Seq<char>) -> bool {
    forall|i: int| 0 <= i < s.len() ==> #[trigger] s[i] != '\n'
}

/// A text that is one word.
pub open spec fn is_word(s: Seq<char>) -> bool {
    s.len() > 0 && forall|i: int| 0 <= i < s.len() ==> !is_space(#[trigger] s[i])
}

/// Every line of a text is one.
pub proof fn lemma_lines_are_lines(s: Seq<char>)
    ensures
        forall|i: int| 0 <= i < lines(s).len() ==> is_line(#[trigger] lines(s)[i]),
    decreases s.len(),
{
    lemma_position(s, '\n');
    if s.len() > 0 && position(s, '\n') < s.len() {
        let p = position(s, '\n');
        lemma_lines_are_lines(s.skip(p + 1));
        assert(is_line(drop_cr(s.take(p))));
        assert forall|i: int| 0 <= i < lines(s).len() implies is_line(#[trigger] lines(s)[i]) by {
            if i > 0 {
                assert(lines(s)[i] == lines(s.skip(p + 1))[i - 1]);
            }
        }
    } else if s.len() > 0 {
        assert(is_line(s));
    }
}

/// A list joined from its front.
pub proof fn lemma_join_front(parts: Seq<Seq<char>>, sep: Seq<char>)
    requires
        parts.len() >= 2,
    ensures
        join(parts, sep) == parts[0] + sep + join(parts.drop_first(), sep),
    decreases parts.len(),
{
    if parts.len() > 2 {
        lemma_join_front(parts.drop_last(), sep);
        assert(parts.drop_last().drop_first() =~= parts.drop_first().drop_last());
        assert(join(parts, sep) =~= parts[0] + sep + join(parts.drop_first(), sep));
    } else {
        assert(parts.drop_last() =~= seq![parts[0]]);
        assert(parts.drop_first() =~= seq![parts[1]]);
        reveal_with_fuel(join, 2);
    }
}

/// Lines that were written are read again, but for carriage returns at their ends.
pub proof fn lemma_lines_unlines(parts: Seq<Seq<char>>)
    requires
        parts.len() > 0,
        forall|i: int| 0 <= i < parts.len() ==> is_line(#[trigger] parts[i]),
    ensures
        lines(unlines(parts)) == parts.map_values(|l: Seq<char>| drop_cr(l)),
    decreases parts.len(),
{
    let s = unlines(parts);
    let first = parts[0];
    let n = first.len() as int;
    let want = parts.map_values(|l: Seq<char>| drop_cr(l));
    assert(is_line(first));
    if parts.len() == 1 {
        assert(s =~= first.push('\n'));
        lemma_position_is(s, '\n', n);
        assert(s.take(n) =~= first);
        assert(s.skip(n + 1) =~= seq![]);
        assert(lines(s.skip(n + 1)) =~= seq![]);
        assert(lines(s) =~= want);
    } else {
        let rest = parts.drop_first();
        lemma_join_front(parts, seq!['\n']);
        assert(s =~= first + seq!['\n'] + unlines(rest));
        lemma_position_is(s, '\n', n);
        assert(s.take(n) =~= first);
        assert(s.skip(n + 1) =~= unlines(rest));
        assert forall|i: int| 0 <= i < rest.len() implies is_line(#[trigger] rest[i]) by {
            assert(rest[i] == parts[i + 1]);
        }
        lemma_lines_unlines(rest);
        assert(lines(s) =~= want);
    }
}

/// The words of a text are words.
pub proof fn lemma_words_are_words(s: Seq<char>)
    ensures
        forall|i: int| 0 <= i < words(s).len() ==> is_word(#[trigger] words(s)[i]),
    decreases s.len(),
{
    if s.len() > 0 {
        lemma_word_len(s);
        if is_space(s[0]) {
            lemma_words_are_words(s.drop_first());
            assert(words(s) == words(s.drop_first()));
        } else {
            let p = word_len(s);
            lemma_words_are_words(s.skip(p));
            assert(is_word(s.take(p)));
            assert forall|i: int| 0 <= i < words(s).len() implies is_word(
                #[trigger] words(s)[i],
            ) by {
                if i > 0 {
                    assert(words(s)[i] == words(s.skip(p))[i - 1]);
                }
            }
        }
    }
}

/// A word in front of white space is the first word.
pub proof fn lemma_first_word(w: Seq<char>, rest: Seq<char>)
    requires
        is_word(w),
        rest.len() > 0 ==> is_space(rest[0]),
    ensures
        words(w + rest) == seq![w] + words(rest),
{
    let s = w + rest;
    assert forall|j: int| 0 <= j < w.len() implies !is_space(#[trigger] s[j]) by {
        assert(s[j] == w[j]);
    }
    lemma_word_len_is(s, w.len() as int);
    assert(s[0] == w[0]);
    assert(s.take(w.len() as int) =~= w);
    assert(s.skip(w.len() as int) =~= rest);
}

/// Words that were joined are read again.
pub proof fn lemma_words_join(ws: Seq<Seq<char>>)
    requires
        forall|i: int| 0 <= i < ws.len() ==> is_word(#[trigger] ws[i]),
    ensures
        words(join(ws, seq![' '])) == ws,
    decreases ws.len(),
{
    if ws.len() == 0 {
        assert(words(join(ws, seq![' '])) =~= ws);
    } else {
        assert(is_word(ws[0]));
        if ws.len() == 1 {
            let e: Seq<char> = seq![];
            lemma_first_word(ws[0], e);
            assert(ws[0] + e =~= ws[0]);
            assert(words(ws[0]) =~= ws);
        } else {
            let rest = ws.drop_first();
            assert forall|i: int| 0 <= i < rest.len() implies is_word(#[trigger] rest[i]) by {
                assert(rest[i] == ws[i + 1]);
            }
            lemma_words_join(rest);
            lemma_join_front(ws, seq![' ']);
            let tail = seq![' '] + join(rest, seq![' ']);
            assert(join(ws, seq![' ']) =~= ws[0] + tail);
            lemma_first_word(ws[0], tail);
            assert(tail.drop_first() =~= join(rest, seq![' ']));
            assert(words(tail) == rest);
            assert(seq![ws[0]] + rest =~= ws);
        }
    }
}

/// Joined words hold no line feed, and do not end with white space.
pub proof fn lemma_joined_words(ws: Seq<Seq<char>>)
    requires
        forall|i: int| 0 <= i < ws.len() ==> is_word(#[trigger] ws[i]),
    ensures
        is_line(join(ws, seq![' '])),
        ws.len() > 0 ==> join(ws, seq![' ']).len() > 0 && !is_space(join(ws, seq![' ']).last()),
        ws.len() > 0 ==> !is_space(join(ws, seq![' '])[0]),
    decreases ws.len(),
{
    if ws.len() > 0 {
        let last = ws.last();
        assert(is_word(ws[ws.len() - 1]));
        assert(is_word(ws[0]));
        assert forall|i: int| 0 <= i < last.len() implies #[trigger] last[i] != '\n' by {
            assert(!is_space(last[i]));
        }
        if ws.len() > 1 {
            let front = ws.drop_last();
            assert forall|i: int| 0 <= i < front.len() implies is_word(#[trigger] front[i]) by {
                assert(front[i] == ws[i]);
            }
            lemma_joined_words(front);
        }
    }
}

/// A carriage return at its end does not change the words of a text.
pub proof fn lemma_words_drop_cr(s: Seq<char>)
    ensures
        words(drop_cr(s)) == words(s),
    decreases s.len(),
{
    if s.len() > 0 && s.last() == '\r' {
        lemma_word_len(s);
        if is_space(s[0]) {
            lemma_words_drop_cr(s.drop_first());
            if s.len() > 1 {
                assert(s.drop_last().drop_first() =~= s.drop_first().drop_last());
            } else {
                assert(s.drop_first() =~= s.drop_last());
            }
        } else {
            let p = word_len(s);
            let rest = s.skip(p);
            lemma_words_drop_cr(rest);
            assert(rest.last() == '\r');
            assert(s.drop_last().take(p) =~= s.take(p));
            assert(s.drop_last().skip(p) =~= rest.drop_last());
            assert forall|j: int| 0 <= j < p implies !is_space(#[trigger] s.drop_last()[j]) by {
                assert(s[j] == s.drop_last()[j]);
            }
            lemma_word_len_is(s.drop_last(), p);
        }
    }
}

/// Taking a carriage return off the end and characters off the front commute.
pub proof fn lemma_drop_front_cr(s: Seq<char>, k: Class)
    ensures
        drop_front(drop_cr(s), k) == drop_cr(drop_front(s, k)),
    decreases s.len(),
{
    if s.len() > 0 && in_class(k, s[0]) {
        lemma_drop_front_cr(s.drop_first(), k);
        if s.last() == '\r' {
            if s.len() > 1 {
                assert(s.drop_last().drop_first() =~= s.drop_first().drop_last());
            } else {
                assert(s.drop_first() =~= s.drop_last());
            }
        }
    }
}

/// A carriage return at its end does not change what is left of a trimmed text.
pub proof fn lemma_trim_drop_cr(s: Seq<char>)
    ensures
        trim(drop_cr(s)) == trim(s),
{
    lemma_drop_front_cr(s, Class::Space);
}

/// A carriage return at its end stays in the second part of a text that is cut.
pub proof fn lemma_cut_drop_cr(s: Seq<char>, c: char)
    requires
        c != '\r',
    ensures
        match cut(s, c) {
            Some((a, b)) => cut(drop_cr(s), c) == Some((a, drop_cr(b))),
            None => cut(drop_cr(s), c) is None,
        },
{
    lemma_position(s, c);
    let p = position(s, c);
    if p + 1 < s.len() {
        assert(s.skip(p + 1).last() == s.last());
    }
    if s.len() > 0 && s.last() == '\r' {
        let t = s.drop_last();
        if p < s.len() {
            lemma_position_is(t, c, p);
            assert(t.take(p) =~= s.take(p));
            assert(t.skip(p + 1) =~= s.skip(p + 1).drop_last());
        } else {
            lemma_position_is(t, c, t.len() as int);
        }
    }
}

// ---------------------------------------------------------------------------
// Laws
// ---------------------------------------------------------------------------

/// The lines of a text are those of its beginning, up to a line feed, and then
/// those of the rest. One line is itself, without the end of the line.
pub proof fn law_lines_add_up(a: Seq<char>, b: Seq<char>)
    ensures
        lines(a.push('\n') + b) == lines(a.push('\n')) + lines(b),
        is_line(a) ==> lines(a.push('\n')) == seq![
            if a.len() > 0 && a.last() == '\r' {
                a.drop_last()
            } else {
                a
            },
        ],
        is_line(a) && a.len() > 0 ==> lines(a) == seq![a],
        lines(Seq::<char>::empty()) == Seq::<Seq<char>>::empty(),
    decreases a.len(),
{
    let s = a.push('\n') + b;
    let t = a.push('\n');
    lemma_position(a, '\n');
    let p = position(a, '\n');
    assert forall|j: int| 0 <= j < p implies s[j] != '\n' && t[j] != '\n' by {
        assert(s[j] == a[j] && t[j] == a[j]);
    }
    assert(s[p] == '\n' && t[p] == '\n');
    lemma_position_is(s, '\n', p);
    lemma_position_is(t, '\n', p);
    assert(s.take(p) =~= a.take(p) && t.take(p) =~= a.take(p));
    if p < a.len() {
        let rest = a.skip(p + 1);
        law_lines_add_up(rest, b);
        assert(s.skip(p + 1) =~= rest.push('\n') + b);
        assert(t.skip(p + 1) =~= rest.push('\n'));
        assert(lines(s) =~= lines(t) + lines(b));
        assert(a[p] == '\n');
    } else {
        assert(a.take(p) =~= a);
        assert(s.skip(p + 1) =~= b);
        assert(t.skip(p + 1) =~= seq![]);
        assert(lines(t.skip(p + 1)) =~= seq![]);
        assert(lines(t) =~= seq![drop_cr(a)]);
        assert(lines(s) =~= lines(t) + lines(b));
    }
}

/// The words of a text are those of its parts, where white space parts them. A
/// word is itself, and white space has none.
pub proof fn law_words_add_up(a: Seq<char>, c: char, b: Seq<char>)
    requires
        is_space(c),
    ensures
        words(a.push(c) + b) == words(a) + words(b),
        is_word(a) ==> words(a) == seq![a],
        (forall|i: int| 0 <= i < a.len() ==> is_space(#[trigger] a[i])) ==> words(a) == Seq::<
            Seq<char>,
        >::empty(),
    decreases a.len(),
{
    let s = a.push(c) + b;
    if a.len() == 0 {
        assert(s.drop_first() =~= b);
        assert(words(a) + words(b) =~= words(b));
    } else if is_space(a[0]) {
        let t = a.drop_first();
        assert(s[0] == a[0]);
        assert(s.drop_first() =~= t.push(c) + b);
        law_words_add_up(t, c, b);
        assert(is_word(a) ==> false);
        if forall|i: int| 0 <= i < a.len() ==> is_space(#[trigger] a[i]) {
            assert forall|i: int| 0 <= i < t.len() implies is_space(#[trigger] t[i]) by {
                assert(t[i] == a[i + 1]);
            }
        }
    } else {
        lemma_word_len(a);
        let n = word_len(a);
        assert forall|j: int| 0 <= j < n implies !is_space(#[trigger] s[j]) by {
            assert(s[j] == a[j]);
        }
        assert(is_space(s[n]));
        lemma_word_len_is(s, n);
        assert(s.take(n) =~= a.take(n));
        let t = a.skip(n);
        assert(s.skip(n) =~= t.push(c) + b);
        assert(s[0] == a[0]);
        law_words_add_up(t, c, b);
        assert(words(s) =~= words(a) + words(b));
        if is_word(a) {
            if n < a.len() {
                assert(is_space(a[n]));
            }
            assert(a.take(n) =~= a);
            assert(t =~= seq![]);
            assert(words(a) =~= seq![a]);
        }
    }
}

/// Two lists that are joined are joined with the separator between them; one
/// part alone has none.
pub proof fn law_joining_adds_up(a: Seq<Seq<char>>, b: Seq<Seq<char>>, sep: Seq<char>)
    ensures
        a.len() > 0 && b.len() > 0 ==> join(a + b, sep) == join(a, sep) + sep + join(b, sep),
        a.len() == 1 ==> join(a, sep) == a[0],
        a.len() == 0 ==> join(a, sep) == Seq::<char>::empty(),
    decreases b.len(),
{
    if a.len() > 0 && b.len() > 0 {
        let front = b.drop_last();
        assert((a + b).drop_last() =~= a + front);
        assert((a + b).last() == b.last());
        if b.len() == 1 {
            assert(a + front =~= a);
        } else {
            law_joining_adds_up(a, front, sep);
            assert(join(a + b, sep) =~= join(a, sep) + sep + join(b, sep));
        }
    }
}

/// White space at the ends of a text does not change its words.
pub proof fn lemma_words_trim(s: Seq<char>)
    ensures
        words(trim(s)) == words(s),
{
    lemma_words_drop_front(s);
    lemma_words_drop_back(drop_front(s, Class::Space));
}

proof fn lemma_words_drop_front(s: Seq<char>)
    ensures
        words(drop_front(s, Class::Space)) == words(s),
    decreases s.len(),
{
    if s.len() > 0 && is_space(s[0]) {
        lemma_words_drop_front(s.drop_first());
    }
}

proof fn lemma_words_drop_back(s: Seq<char>)
    ensures
        words(crate::text::drop_back(s, Class::Space)) == words(s),
    decreases s.len(),
{
    if s.len() > 0 && is_space(s.last()) {
        let t = s.drop_last();
        lemma_words_drop_back(t);
        law_words_add_up(t, s.last(), seq![]);
        assert(t.push(s.last()) + Seq::<char>::empty() =~= s);
        assert(words(t) + words(Seq::<char>::empty()) =~= words(t));
    }
}

/// Each line that is written ends with a line feed.
pub proof fn law_each_line_is_ended(parts: Seq<Seq<char>>, line: Seq<char>)
    ensures
        unlines(seq![line]) == line.push('\n'),
        parts.len() > 0 ==> unlines(parts.push(line)) == unlines(parts) + line.push('\n'),
        unlines(Seq::<Seq<char>>::empty()) == seq!['\n'],
{
    assert(Seq::<char>::empty().push('\n') =~= seq!['\n']);
    if parts.len() > 0 {
        assert(parts.push(line).drop_last() =~= parts);
        assert(unlines(parts.push(line)) =~= unlines(parts) + line.push('\n'));
    }
}

} // verus!

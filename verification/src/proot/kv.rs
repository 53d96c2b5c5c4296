//! Files of keys and values, one to a line.

use vstd::prelude::*;

use crate::lines::{
    drop_cr, is_line, joined_lines, lemma_cut_drop_cr, lemma_drop_front_cr, lemma_lines_are_lines,
    lemma_lines_unlines, lines, split_lines, unlines,
};
use crate::text::{
    chars_of, cut, cut_at, drop_back, drop_front, is_blank, is_space,
    law_a_text_is_cut_at_the_first, law_blanks_around_are_trimmed, lemma_position,
    lemma_position_is, pairs, position, same, text_of, texts, trim, trimmed, without_front, Class,
};

verus! {

/// A line of such a file.
pub enum KvLine<S> {
    /// A key with its value. The prefix is the blank space in front of the key.
    Entry { key: S, value: S, prefix: S, delimiter: char },
    /// A comment, an empty line, or one that sets nothing.
    Other(S),
}

impl KvLine<String> {
    /// The line over the views of its texts.
    pub open spec fn seen(self) -> KvLine<Seq<char>> {
        match self {
            KvLine::Entry { key, value, prefix, delimiter } => KvLine::Entry {
                key: key@,
                value: value@,
                prefix: prefix@,
                delimiter,
            },
            KvLine::Other(s) => KvLine::Other(s@),
        }
    }
}

/// The views of lines.
pub open spec fn kv_views(v: Seq<KvLine<String>>) -> Seq<KvLine<Seq<char>>> {
    Seq::new(v.len(), |i: int| v[i].seen())
}

/// A line that sets nothing: it is empty or a comment.
pub open spec fn is_comment(line: Seq<char>) -> bool {
    let t = drop_front(line, Class::Space);
    t.len() == 0 || t[0] == '#' || t[0] == '!'
}

/// The blank space in front of a line.
pub open spec fn blank_front(line: Seq<char>) -> Seq<char> {
    line.take(line.len() - drop_front(line, Class::Space).len())
}

/// What a line means.
pub open spec fn kv_line(line: Seq<char>, delimiter: char) -> KvLine<Seq<char>> {
    if is_comment(line) {
        KvLine::Other(line)
    } else {
        match cut(line, delimiter) {
            Some((left, right)) => if trim(left).len() == 0 {
                KvLine::Other(line)
            } else {
                KvLine::Entry {
                    key: trim(left),
                    value: trim(right),
                    prefix: blank_front(line),
                    delimiter,
                }
            },
            None => KvLine::Other(line),
        }
    }
}

/// What the lines of a file mean.
pub open spec fn kv_lines(content: Seq<char>, delimiter: char) -> Seq<KvLine<Seq<char>>> {
    lines(content).map_values(|l: Seq<char>| kv_line(l, delimiter))
}

/// Whether a line sets `key`.
pub open spec fn sets(line: KvLine<Seq<char>>, key: Seq<char>) -> bool {
    line matches KvLine::Entry { key: k, .. } && k == key
}

/// A line with its value replaced, if it sets `key`.
pub open spec fn revalued(line: KvLine<Seq<char>>, key: Seq<char>, value: Seq<char>) -> KvLine<
    Seq<char>,
> {
    match line {
        KvLine::Entry { key: k, value: v, prefix, delimiter } => if k == key {
            KvLine::Entry { key: k, value, prefix, delimiter }
        } else {
            line
        },
        KvLine::Other(_) => line,
    }
}

/// Whether some line sets `key`.
pub open spec fn has_key(ls: Seq<KvLine<Seq<char>>>, key: Seq<char>) -> bool {
    exists|i: int| 0 <= i < ls.len() && sets(#[trigger] ls[i], key)
}

/// The lines with `key` set: wherever it is set, or in a line behind the others.
pub open spec fn with_value(
    ls: Seq<KvLine<Seq<char>>>,
    key: Seq<char>,
    value: Seq<char>,
    delimiter: char,
) -> Seq<KvLine<Seq<char>>> {
    let changed = ls.map_values(|l: KvLine<Seq<char>>| revalued(l, key, value));
    if has_key(ls, key) {
        changed
    } else {
        changed.push(KvLine::Entry { key, value, prefix: seq![], delimiter })
    }
}

/// A line as it is written.
pub open spec fn kv_text(line: KvLine<Seq<char>>) -> Seq<char> {
    match line {
        KvLine::Entry { key, value, prefix, delimiter } => (prefix + key).push(delimiter).push(' ')
            + value,
        KvLine::Other(s) => s,
    }
}

/// The file that the lines make up.
pub open spec fn rendered(ls: Seq<KvLine<Seq<char>>>) -> Seq<char> {
    unlines(ls.map_values(|l: KvLine<Seq<char>>| kv_text(l)))
}

/// The lines with several keys set, one after the other.
pub open spec fn with_values(
    ls: Seq<KvLine<Seq<char>>>,
    updates: Seq<(Seq<char>, Seq<char>)>,
    delimiter: char,
) -> Seq<KvLine<Seq<char>>>
    decreases updates.len(),
{
    if updates.len() == 0 {
        ls
    } else {
        with_value(
            with_values(ls, updates.drop_last(), delimiter),
            updates.last().0,
            updates.last().1,
            delimiter,
        )
    }
}

/// The file with several keys set.
pub open spec fn upserted(
    content: Seq<char>,
    delimiter: char,
    updates: Seq<(Seq<char>, Seq<char>)>,
) -> Seq<char> {
    rendered(with_values(kv_lines(content, delimiter), updates, delimiter))
}

/// Reads what a line means.
pub fn parse_kv_line(line: &str, delimiter: char) -> (r: KvLine<String>)
    ensures
        r.seen() == kv_line(line@, delimiter),
{
    let t = without_front(line, Class::Space);
    let tv = chars_of(t.as_str());
    if tv.len() == 0 || tv[0] == '#' || tv[0] == '!' {
        return KvLine::Other(line.to_owned());
    }
    match cut_at(line, delimiter) {
        Some(halves) => {
            let (left, right) = halves;
            let key = trimmed(left.as_str());
            if key.as_str().is_empty() {
                return KvLine::Other(line.to_owned());
            }
            let v = chars_of(line);
            proof {
                lemma_blank_front(line@);
            }
            let prefix = text_of(&v, 0, v.len() - tv.len());
            assert(prefix@ =~= blank_front(line@));
            KvLine::Entry { key, value: trimmed(right.as_str()), prefix, delimiter }
        },
        None => KvLine::Other(line.to_owned()),
    }
}

/// What is left of a text is its end.
proof fn lemma_blank_front(s: Seq<char>)
    ensures
        drop_front(s, Class::Space).len() <= s.len(),
        s == blank_front(s) + drop_front(s, Class::Space),
        forall|i: int| 0 <= i < blank_front(s).len() ==> is_space(#[trigger] blank_front(s)[i]),
        drop_front(s, Class::Space).len() > 0 ==> !is_space(drop_front(s, Class::Space)[0]),
    decreases s.len(),
{
    if s.len() > 0 && is_space(s[0]) {
        let t = s.drop_first();
        lemma_blank_front(t);
        let d = drop_front(t, Class::Space);
        assert(s =~= seq![s[0]] + t);
        assert(blank_front(s) =~= seq![s[0]] + blank_front(t));
        assert(seq![s[0]] + (blank_front(t) + d) =~= blank_front(s) + d);
    } else {
        assert(blank_front(s) =~= seq![]);
        assert(s =~= blank_front(s) + drop_front(s, Class::Space));
    }
}

/// Reads what the lines of a file mean.
pub fn parse_kv_lines(content: &str, delimiter: char) -> (r: Vec<KvLine<String>>)
    ensures
        kv_views(r@) == kv_lines(content@, delimiter),
{
    let ls = split_lines(content);
    let ghost all = lines(content@);
    let mut out: Vec<KvLine<String>> = Vec::new();
    let mut i: usize = 0;
    while i < ls.len()
        invariant
            i <= ls.len(),
            all == texts(ls@),
            all == lines(content@),
            kv_views(out@) == kv_lines(content@, delimiter).take(i as int),
        decreases ls.len() - i,
    {
        let ghost was = kv_views(out@);
        assert(all[i as int] == ls@[i as int]@);
        let l = parse_kv_line(ls[i].as_str(), delimiter);
        out.push(l);
        assert(kv_views(out@) =~= was.push(l.seen()));
        i = i + 1;
        assert(kv_views(out@) =~= kv_lines(content@, delimiter).take(i as int));
    }
    assert(kv_views(out@) =~= kv_lines(content@, delimiter));
    out
}

/// Sets a key: wherever it is set, or in a line behind the others.
pub fn set_kv_value(ls: &mut Vec<KvLine<String>>, key: &str, value: &str, delimiter: char)
    ensures
        kv_views(final(ls)@) == with_value(kv_views(old(ls)@), key@, value@, delimiter),
{
    let ghost all = kv_views(ls@);
    let ghost changed = all.map_values(|l: KvLine<Seq<char>>| revalued(l, key@, value@));
    let mut out: Vec<KvLine<String>> = Vec::new();
    let mut updated: bool = false;
    let mut i: usize = 0;
    while i < ls.len()
        invariant
            i <= ls.len(),
            all == kv_views(ls@),
            changed == all.map_values(|l: KvLine<Seq<char>>| revalued(l, key@, value@)),
            kv_views(out@) == changed.take(i as int),
            updated == exists|j: int| 0 <= j < i && sets(#[trigger] all[j], key@),
        decreases ls.len() - i,
    {
        let ghost was = kv_views(out@);
        let ghost before = updated;
        assert(all[i as int] == ls@[i as int].seen());
        let l: KvLine<String> = match &ls[i] {
            KvLine::Entry { key: k, value: v, prefix, delimiter: d } => {
                if same(k.as_str(), key) {
                    updated = true;
                    KvLine::Entry {
                        key: k.clone(),
                        value: value.to_owned(),
                        prefix: prefix.clone(),
                        delimiter: *d,
                    }
                } else {
                    KvLine::Entry {
                        key: k.clone(),
                        value: v.clone(),
                        prefix: prefix.clone(),
                        delimiter: *d,
                    }
                }
            },
            KvLine::Other(s) => KvLine::Other(s.clone()),
        };
        out.push(l);
        assert(kv_views(out@) =~= was.push(l.seen()));
        assert(kv_views(out@) =~= changed.take(i + 1));
        assert(updated == (before || sets(all[i as int], key@)));
        i = i + 1;
    }
    assert(changed.take(i as int) =~= changed);
    if !updated {
        let e = KvLine::Entry {
            key: key.to_owned(),
            value: value.to_owned(),
            prefix: String::new(),
            delimiter,
        };
        out.push(e);
        assert(e.seen() == (KvLine::Entry::<Seq<char>> {
            key: key@,
            value: value@,
            prefix: seq![],
            delimiter,
        }));
        assert(kv_views(out@) =~= changed.push(e.seen()));
    }
    *ls = out;
}

/// Writes a line.
fn write_kv_line(line: &KvLine<String>) -> (r: String)
    ensures
        r@ == kv_text(line.seen()),
{
    match line {
        KvLine::Entry { key, value, prefix, delimiter } => {
            let mut r = prefix.clone();
            r.append(key.as_str());
            r.push(*delimiter);
            r.push(' ');
            r.append(value.as_str());
            r
        },
        KvLine::Other(s) => s.clone(),
    }
}

/// Writes the file that the lines make up.
pub fn render_kv_lines(ls: &Vec<KvLine<String>>) -> (r: String)
    ensures
        r@ == rendered(kv_views(ls@)),
{
    let mut out: Vec<String> = Vec::new();
    let ghost want = kv_views(ls@).map_values(|l: KvLine<Seq<char>>| kv_text(l));
    let mut i: usize = 0;
    while i < ls.len()
        invariant
            i <= ls.len(),
            want == kv_views(ls@).map_values(|l: KvLine<Seq<char>>| kv_text(l)),
            texts(out@) == want.take(i as int),
        decreases ls.len() - i,
    {
        let ghost was = texts(out@);
        let t = write_kv_line(&ls[i]);
        out.push(t);
        assert(texts(out@) =~= was.push(t@));
        i = i + 1;
        assert(texts(out@) =~= want.take(i as int));
    }
    assert(texts(out@) =~= want);
    joined_lines(&out)
}

/// Sets several keys of a file, which holds `content`.
pub fn upsert_kv(content: &str, delimiter: char, updates: &Vec<(String, String)>) -> (r: String)
    ensures
        r@ == upserted(content@, delimiter, pairs(updates@)),
{
    let mut ls = parse_kv_lines(content, delimiter);
    let ghost all = pairs(updates@);
    let ghost start = kv_views(ls@);
    let mut i: usize = 0;
    assert(all.take(0) =~= seq![]);
    while i < updates.len()
        invariant
            i <= updates.len(),
            all == pairs(updates@),
            kv_views(ls@) == with_values(start, all.take(i as int), delimiter),
        decreases updates.len() - i,
    {
        assert(all.take(i + 1).drop_last() =~= all.take(i as int));
        assert(all.take(i + 1).last() == (updates@[i as int].0@, updates@[i as int].1@));
        set_kv_value(&mut ls, updates[i].0.as_str(), updates[i].1.as_str(), delimiter);
        i = i + 1;
    }
    assert(all.take(i as int) =~= all);
    render_kv_lines(&ls)
}

// ---------------------------------------------------------------------------
// What holds of every file
// ---------------------------------------------------------------------------

/// A text without blanks at its ends and without a line feed.
pub open spec fn is_tidy(s: Seq<char>) -> bool {
    &&& is_line(s)
    &&& s.len() > 0 ==> !is_space(s[0]) && !is_space(s.last())
}

/// A key that can be written and read again.
pub open spec fn is_key(s: Seq<char>, delimiter: char) -> bool {
    &&& is_tidy(s)
    &&& s.len() > 0
    &&& s[0] != '#' && s[0] != '!'
    &&& forall|i: int| 0 <= i < s.len() ==> #[trigger] s[i] != delimiter
}

/// A line that is read again as it was written.
pub open spec fn is_stable(line: KvLine<Seq<char>>, delimiter: char) -> bool {
    match line {
        KvLine::Entry { key, value, prefix, delimiter: d } => {
            &&& d == delimiter
            &&& is_key(key, delimiter)
            &&& is_tidy(value)
            &&& is_line(prefix)
            &&& forall|i: int| 0 <= i < prefix.len() ==> is_space(#[trigger] prefix[i])
        },
        KvLine::Other(s) => is_line(s) && kv_line(s, delimiter) == line,
    }
}

/// A tidy text stays as it is when it is trimmed.
proof fn lemma_tidy(s: Seq<char>)
    requires
        is_tidy(s),
    ensures
        trim(s) == s,
{
}

/// What is left of a line when it is trimmed is tidy.
proof fn lemma_trim_is_tidy(s: Seq<char>)
    requires
        is_line(s),
    ensures
        is_tidy(trim(s)),
        trim(s).len() > 0 ==> drop_front(s, Class::Space).len() > 0 && trim(s)[0] == drop_front(
            s,
            Class::Space,
        )[0],
        forall|i: int| 0 <= i < trim(s).len() ==> s.contains(#[trigger] trim(s)[i]),
{
    let t = drop_front(s, Class::Space);
    lemma_blank_front(s);
    let n = (s.len() - t.len()) as int;
    assert forall|i: int| 0 <= i < t.len() implies t[i] == #[trigger] s[n + i] by {
        assert(s == blank_front(s) + t);
    }
    lemma_drop_back(t);
    let r = trim(s);
    assert(r == t.take(r.len() as int));
    assert forall|i: int| 0 <= i < r.len() implies #[trigger] r[i] == s[n + i] by {
        assert(r[i] == t[i]);
        assert(t[i] == s[n + i]);
    }
}

/// Taking blanks off the end leaves a beginning.
proof fn lemma_drop_back(s: Seq<char>)
    ensures
        drop_back(s, Class::Space).len() <= s.len(),
        drop_back(s, Class::Space) == s.take(drop_back(s, Class::Space).len() as int),
        drop_back(s, Class::Space).len() > 0 ==> !is_space(drop_back(s, Class::Space).last()),
    decreases s.len(),
{
    if s.len() > 0 && is_space(s.last()) {
        lemma_drop_back(s.drop_last());
        let r = drop_back(s, Class::Space);
        assert(s.drop_last().take(r.len() as int) =~= s.take(r.len() as int));
    } else {
        assert(s.take(s.len() as int) =~= s);
    }
}

/// Blanks in front of a text that begins with none are all that is taken off.
proof fn lemma_drop_blanks(p: Seq<char>, s: Seq<char>)
    requires
        forall|i: int| 0 <= i < p.len() ==> is_space(#[trigger] p[i]),
        s.len() > 0 ==> !is_space(s[0]),
    ensures
        drop_front(p + s, Class::Space) == s,
    decreases p.len(),
{
    if p.len() == 0 {
        assert(p + s =~= s);
    } else {
        let q = p.drop_first();
        assert((p + s)[0] == p[0]);
        assert((p + s).drop_first() =~= q + s);
        assert forall|i: int| 0 <= i < q.len() implies is_space(#[trigger] q[i]) by {
            assert(q[i] == p[i + 1]);
        }
        lemma_drop_blanks(q, s);
    }
}

/// What a line means is stable, where the delimiter is no blank.
proof fn lemma_parsed_is_stable(line: Seq<char>, delimiter: char)
    requires
        is_line(line),
        !is_space(delimiter),
    ensures
        is_stable(kv_line(line, delimiter), delimiter),
{
    let l = kv_line(line, delimiter);
    if l is Entry {
        lemma_position(line, delimiter);
        let p = position(line, delimiter);
        let left = line.take(p);
        let right = line.skip(p + 1);
        lemma_trim_is_tidy(left);
        lemma_trim_is_tidy(right);
        lemma_blank_front(line);
        lemma_blank_front(left);
        let t = drop_front(line, Class::Space);
        let u = drop_front(left, Class::Space);
        let n = blank_front(line).len() as int;
        let m = blank_front(left).len() as int;
        assert(u.len() > 0);
        assert(left[m] == u[0]) by {
            assert(left == blank_front(left) + u);
        }
        assert(line[n] == t[0]) by {
            assert(line == blank_front(line) + t);
        }
        assert(n == m) by {
            if n < m {
                assert(blank_front(left)[n] == left[n]) by {
                    assert(left == blank_front(left) + u);
                }
                assert(is_space(line[n]));
            } else if m < n {
                assert(blank_front(line)[m] == line[m]) by {
                    assert(line == blank_front(line) + t);
                }
                assert(is_space(left[m]));
            }
        }
        assert(trim(left)[0] == t[0]);
        assert forall|i: int| 0 <= i < trim(left).len() implies #[trigger] trim(left)[i]
            != delimiter by {
            assert(left.contains(trim(left)[i]));
        }
        let b = blank_front(line);
        assert forall|i: int| 0 <= i < b.len() implies #[trigger] b[i] != '\n' by {
            assert(b[i] == line[i]);
        }
    }
}

/// A stable line is read again as it was written, also behind a carriage return.
proof fn lemma_read_again(line: KvLine<Seq<char>>, delimiter: char)
    requires
        is_stable(line, delimiter),
        !is_space(delimiter),
    ensures
        is_line(kv_text(line)),
        line is Entry ==> kv_line(drop_cr(kv_text(line)), delimiter) == line,
        line is Other ==> kv_line(drop_cr(kv_text(line)), delimiter) is Other,
{
    match line {
        KvLine::Entry { key, value, prefix, delimiter: d } => {
            let s = kv_text(line);
            let body = key.push(d).push(' ') + value;
            assert(s =~= prefix + body);
            assert(body[0] == key[0]);
            assert(s.last() == if value.len() > 0 {
                value.last()
            } else {
                ' '
            });
            assert(drop_cr(s) == s);
            lemma_drop_blanks(prefix, body);
            let p = (prefix.len() + key.len()) as int;
            assert(s.take(p) =~= prefix + key);
            assert forall|i: int| 0 <= i < p implies s[i] != d by {
                if i < prefix.len() {
                    assert(s[i] == prefix[i]);
                } else {
                    assert(s[i] == key[i - prefix.len()]);
                }
            }
            lemma_position_is(s, d, p);
            lemma_drop_blanks(prefix, key);
            lemma_tidy(key);
            assert(trim(s.take(p)) == key);
            assert(s.skip(p + 1) =~= seq![' '] + value);
            lemma_drop_blanks(seq![' '], value);
            lemma_tidy(value);
            assert(trim(s.skip(p + 1)) == value);
            assert(blank_front(s) =~= prefix);
            assert forall|i: int| 0 <= i < s.len() implies #[trigger] s[i] != '\n' by {
                if i < prefix.len() {
                    assert(s[i] == prefix[i]);
                } else if i < p {
                    assert(s[i] == key[i - prefix.len()]);
                } else if i >= p + 2 {
                    assert(s[i] == value[i - p - 2]);
                }
            }
        },
        KvLine::Other(s) => {
            let t = drop_cr(s);
            lemma_drop_front_cr(s, Class::Space);
            lemma_cut_drop_cr(s, delimiter);
            if is_comment(s) {
                let f = drop_front(s, Class::Space);
                assert(is_comment(t)) by {
                    if f.len() > 0 && f.last() == '\r' && f.len() > 1 {
                        assert(drop_cr(f)[0] == f[0]);
                    }
                }
            }
        },
    }
}

/// Lines that are set stay stable.
proof fn lemma_with_value_stable(
    ls: Seq<KvLine<Seq<char>>>,
    key: Seq<char>,
    value: Seq<char>,
    delimiter: char,
)
    requires
        forall|i: int| 0 <= i < ls.len() ==> is_stable(#[trigger] ls[i], delimiter),
        is_key(key, delimiter),
        is_tidy(value),
    ensures
        forall|i: int|
            0 <= i < with_value(ls, key, value, delimiter).len() ==> is_stable(
                #[trigger] with_value(ls, key, value, delimiter)[i],
                delimiter,
            ),
{
    let r = with_value(ls, key, value, delimiter);
    assert forall|i: int| 0 <= i < r.len() implies is_stable(#[trigger] r[i], delimiter) by {
        if i < ls.len() {
            assert(r[i] == revalued(ls[i], key, value));
            assert(is_stable(ls[i], delimiter));
        }
    }
}

/// Setting a key sets it: in the file that is written, some line sets the key,
/// and every line that does sets it to this value.
pub proof fn law_a_set_key_reads_back(
    content: Seq<char>,
    delimiter: char,
    key: Seq<char>,
    value: Seq<char>,
)
    requires
        !is_space(delimiter),
        is_key(key, delimiter),
        is_tidy(value),
    ensures
        has_key(kv_lines(upserted(content, delimiter, seq![(key, value)]), delimiter), key),
        forall|i: int|
            0 <= i < kv_lines(upserted(content, delimiter, seq![(key, value)]), delimiter).len()
                && sets(
                #[trigger] kv_lines(upserted(content, delimiter, seq![(key, value)]), delimiter)[i],
                key,
            ) ==> kv_lines(upserted(content, delimiter, seq![(key, value)]), delimiter)[i]->value
                == value,
{
    let ls = kv_lines(content, delimiter);
    let set = with_value(ls, key, value, delimiter);
    let updates = seq![(key, value)];
    assert(updates.drop_last() =~= seq![]);
    assert(with_values(ls, updates.drop_last(), delimiter) == ls);
    assert(with_values(ls, updates, delimiter) == set);
    lemma_lines_are_lines(content);
    assert forall|i: int| 0 <= i < ls.len() implies is_stable(#[trigger] ls[i], delimiter) by {
        lemma_parsed_is_stable(lines(content)[i], delimiter);
    }
    lemma_with_value_stable(ls, key, value, delimiter);
    lemma_rendered(set, delimiter);
    let read = kv_lines(rendered(set), delimiter);
    if has_key(ls, key) {
        let i = choose|i: int| 0 <= i < ls.len() && sets(#[trigger] ls[i], key);
        assert(set[i] == revalued(ls[i], key, value));
        assert(sets(set[i], key));
        assert(sets(read[i], key));
    } else {
        let i = ls.len() as int;
        assert(sets(set[i], key));
        assert(sets(read[i], key));
    }
    assert forall|i: int| 0 <= i < read.len() && sets(#[trigger] read[i], key) implies read[i]->value
        == value by {
        assert(set[i] is Entry ==> read[i] == set[i]);
        assert(set[i] is Other ==> read[i] is Other);
        if i < ls.len() {
            assert(set[i] == revalued(ls[i], key, value));
        }
    }
}

/// Stable lines that are written are read again.
proof fn lemma_rendered(ls: Seq<KvLine<Seq<char>>>, delimiter: char)
    requires
        ls.len() > 0,
        !is_space(delimiter),
        forall|i: int| 0 <= i < ls.len() ==> is_stable(#[trigger] ls[i], delimiter),
    ensures
        kv_lines(rendered(ls), delimiter).len() == ls.len(),
        forall|i: int|
            0 <= i < ls.len() ==> (ls[i] is Entry ==> #[trigger] kv_lines(
                rendered(ls),
                delimiter,
            )[i] == ls[i]) && (ls[i] is Other ==> kv_lines(rendered(ls), delimiter)[i] is Other),
{
    let parts = ls.map_values(|l: KvLine<Seq<char>>| kv_text(l));
    assert forall|i: int| 0 <= i < parts.len() implies is_line(#[trigger] parts[i]) by {
        lemma_read_again(ls[i], delimiter);
    }
    lemma_lines_unlines(parts);
    let read = kv_lines(rendered(ls), delimiter);
    assert forall|i: int| 0 <= i < ls.len() implies (ls[i] is Entry ==> #[trigger] read[i] == ls[i])
        && (ls[i] is Other ==> read[i] is Other) by {
        lemma_read_again(ls[i], delimiter);
        assert(lines(rendered(ls))[i] == drop_cr(kv_text(ls[i])));
    }
}

/// Setting a key leaves the others: a line that sets another key, or none,
/// stays where it is and says what it said.
pub proof fn law_setting_leaves_other_lines(
    ls: Seq<KvLine<Seq<char>>>,
    key: Seq<char>,
    value: Seq<char>,
    delimiter: char,
    i: int,
)
    requires
        0 <= i < ls.len(),
        !sets(ls[i], key),
    ensures
        with_value(ls, key, value, delimiter)[i] == ls[i],
{
}

/// Setting a key again sets it as if it had been set once.
pub proof fn law_the_last_value_stays(
    ls: Seq<KvLine<Seq<char>>>,
    key: Seq<char>,
    first: Seq<char>,
    last: Seq<char>,
    delimiter: char,
)
    ensures
        with_value(with_value(ls, key, first, delimiter), key, last, delimiter) == with_value(
            ls,
            key,
            last,
            delimiter,
        ),
{
    let once = with_value(ls, key, first, delimiter);
    if has_key(ls, key) {
        let i = choose|i: int| 0 <= i < ls.len() && sets(#[trigger] ls[i], key);
        assert(once[i] == revalued(ls[i], key, first));
        assert(sets(once[i], key));
    } else {
        assert(sets(once[ls.len() as int], key));
    }
    assert(has_key(once, key));
    let twice = with_value(once, key, last, delimiter);
    let want = with_value(ls, key, last, delimiter);
    assert forall|i: int| 0 <= i < twice.len() implies twice[i] == want[i] by {
        if i < ls.len() {
            assert(once[i] == revalued(ls[i], key, first));
        }
    }
    assert(twice =~= want);
}

/// Setting a key that is set changes nothing: the second time, the file stays
/// as it is. Lines that end with a carriage return of their own are left out:
/// reading them again takes it off.
pub proof fn law_setting_twice_is_setting_once(
    content: Seq<char>,
    delimiter: char,
    key: Seq<char>,
    value: Seq<char>,
)
    requires
        !is_space(delimiter),
        is_key(key, delimiter),
        is_tidy(value),
        forall|i: int|
            0 <= i < lines(content).len() ==> drop_cr(#[trigger] lines(content)[i]) == lines(
                content,
            )[i],
    ensures
        upserted(upserted(content, delimiter, seq![(key, value)]), delimiter, seq![(key, value)])
            == upserted(content, delimiter, seq![(key, value)]),
{
    let ls = kv_lines(content, delimiter);
    let set = with_value(ls, key, value, delimiter);
    let updates = seq![(key, value)];
    assert(updates.drop_last() =~= seq![]);
    assert(with_values(ls, updates.drop_last(), delimiter) == ls);
    assert(with_values(ls, updates, delimiter) == set);
    lemma_lines_are_lines(content);
    assert forall|i: int| 0 <= i < ls.len() implies is_stable(#[trigger] ls[i], delimiter) by {
        lemma_parsed_is_stable(lines(content)[i], delimiter);
    }
    lemma_with_value_stable(ls, key, value, delimiter);
    lemma_rendered(set, delimiter);
    let read = kv_lines(rendered(set), delimiter);
    let parts = set.map_values(|l: KvLine<Seq<char>>| kv_text(l));
    assert forall|i: int| 0 <= i < set.len() implies read[i] == set[i] by {
        if set[i] is Other {
            assert(set[i] == revalued(ls[i], key, value));
            assert(ls[i] == set[i]);
            assert(set[i] == KvLine::Other(lines(content)[i]));
            assert(drop_cr(lines(content)[i]) == lines(content)[i]);
            assert forall|j: int| 0 <= j < parts.len() implies is_line(#[trigger] parts[j]) by {
                lemma_read_again(set[j], delimiter);
            }
            lemma_lines_unlines(parts);
            assert(lines(rendered(set))[i] == lines(content)[i]);
        }
    }
    assert(read =~= set);
    assert(with_values(read, updates.drop_last(), delimiter) == read);
    law_the_last_value_stays(ls, key, value, value, delimiter);
}

/// Lines that were read and written are read again: they mean what they meant.
/// Lines that end with a carriage return of their own are left out, and so is an
/// empty file: it is written as one empty line.
pub proof fn law_written_lines_read_back(content: Seq<char>, delimiter: char)
    requires
        !is_space(delimiter),
        lines(content).len() > 0,
        forall|i: int|
            0 <= i < lines(content).len() ==> drop_cr(#[trigger] lines(content)[i]) == lines(
                content,
            )[i],
    ensures
        kv_lines(rendered(kv_lines(content, delimiter)), delimiter) == kv_lines(
            content,
            delimiter,
        ),
{
    let ls = kv_lines(content, delimiter);
    lemma_lines_are_lines(content);
    assert forall|i: int| 0 <= i < ls.len() implies is_stable(#[trigger] ls[i], delimiter) by {
        lemma_parsed_is_stable(lines(content)[i], delimiter);
    }
    lemma_rendered(ls, delimiter);
    let read = kv_lines(rendered(ls), delimiter);
    let parts = ls.map_values(|l: KvLine<Seq<char>>| kv_text(l));
    assert forall|j: int| 0 <= j < parts.len() implies is_line(#[trigger] parts[j]) by {
        lemma_read_again(ls[j], delimiter);
    }
    lemma_lines_unlines(parts);
    assert forall|i: int| 0 <= i < ls.len() implies read[i] == ls[i] by {
        if ls[i] is Other {
            assert(ls[i] == KvLine::Other(lines(content)[i]));
            assert(drop_cr(lines(content)[i]) == lines(content)[i]);
            assert(lines(rendered(ls))[i] == lines(content)[i]);
        }
    }
    assert(read =~= ls);
}

/// A line sets a key to a value: the key stands before the first delimiter, the
/// value behind it, blanks around both aside, and the blanks in front of the key
/// are kept. A comment, an empty line, and a line without a delimiter set nothing
/// and are kept as they are.
pub proof fn law_a_line_sets_its_key(
    prefix: Seq<char>,
    key: Seq<char>,
    a: Seq<char>,
    delimiter: char,
    b: Seq<char>,
    value: Seq<char>,
    c: Seq<char>,
)
    requires
        is_blank(prefix) && is_blank(a) && is_blank(b) && is_blank(c),
        !is_space(delimiter),
        is_key(key, delimiter),
        is_tidy(value),
    ensures
        kv_line((prefix + key + a).push(delimiter) + (b + value + c), delimiter)
            == (KvLine::Entry { key, value, prefix, delimiter }),
        kv_line(prefix + seq!['#'] + value, delimiter) == KvLine::Other(
            prefix + seq!['#'] + value,
        ),
        kv_line(prefix + seq!['!'] + value, delimiter) == KvLine::Other(
            prefix + seq!['!'] + value,
        ),
        kv_line(prefix, delimiter) == KvLine::Other(prefix),
        kv_line(key, delimiter) == KvLine::Other(key),
{
    let left = prefix + key + a;
    let right = b + value + c;
    let line = left.push(delimiter) + right;
    law_blanks_around_are_trimmed(prefix, key, a);
    law_blanks_around_are_trimmed(b, value, c);
    assert(!left.contains(delimiter)) by {
        if left.contains(delimiter) {
            let i = choose|i: int| 0 <= i < left.len() && left[i] == delimiter;
            if i < prefix.len() {
                assert(is_space(prefix[i]));
            } else if i < prefix.len() + key.len() {
                assert(key[i - prefix.len()] == delimiter);
            } else {
                assert(is_space(a[i - prefix.len() - key.len()]));
            }
        }
    }
    law_a_text_is_cut_at_the_first(left, delimiter, right);
    let rest = (key + a).push(delimiter) + right;
    assert(line =~= prefix + rest);
    assert(rest[0] == key[0]);
    lemma_drop_blanks(prefix, rest);
    assert(blank_front(line) =~= prefix);
    let x = seq!['#'] + value;
    let y = seq!['!'] + value;
    assert(prefix + seq!['#'] + value =~= prefix + x);
    assert(prefix + seq!['!'] + value =~= prefix + y);
    lemma_drop_blanks(prefix, x);
    lemma_drop_blanks(prefix, y);
    let e = Seq::<char>::empty();
    lemma_drop_blanks(prefix, e);
    assert(prefix + e =~= prefix);
    lemma_drop_blanks(e, key);
    assert(e + key =~= key);
    assert(!key.contains(delimiter));
    law_a_text_is_cut_at_the_first(key, delimiter, e);
}

/// Setting a key changes no line but those that set it, and of these the value
/// alone; where no line sets it, one line is put behind the others. A line is
/// written as its blanks, the key, the delimiter, a blank and the value.
pub proof fn law_a_new_key_is_put_last(
    ls: Seq<KvLine<Seq<char>>>,
    key: Seq<char>,
    value: Seq<char>,
    delimiter: char,
    prefix: Seq<char>,
)
    ensures
        (forall|i: int|
            0 <= i < ls.len() ==> !(#[trigger] ls[i] matches KvLine::Entry { key: k, .. } && k
                == key)) ==> with_value(ls, key, value, delimiter) == ls.push(
            KvLine::Entry { key, value, prefix: seq![], delimiter },
        ),
        (exists|i: int|
            0 <= i < ls.len() && (#[trigger] ls[i] matches KvLine::Entry { key: k, .. } && k
                == key)) ==> with_value(ls, key, value, delimiter).len() == ls.len(),
        forall|i: int|
            0 <= i < ls.len() ==> (#[trigger] with_value(ls, key, value, delimiter)[i]) == (
            match ls[i] {
                KvLine::Entry { key: k, value: v, prefix: p, delimiter: d } => KvLine::Entry {
                    key: k,
                    value: if k == key {
                        value
                    } else {
                        v
                    },
                    prefix: p,
                    delimiter: d,
                },
                KvLine::Other(s) => KvLine::Other(s),
            }),
        kv_text(KvLine::Entry { key, value, prefix, delimiter }) == prefix + key + seq![
            delimiter,
            ' ',
        ] + value,
        kv_text(KvLine::Other(key)) == key,
{
    let r = with_value(ls, key, value, delimiter);
    assert((prefix + key).push(delimiter).push(' ') + value =~= prefix + key + seq![delimiter, ' ']
        + value);
    if forall|i: int|
        0 <= i < ls.len() ==> !(#[trigger] ls[i] matches KvLine::Entry { key: k, .. } && k == key) {
        assert forall|i: int| 0 <= i < ls.len() implies !sets(#[trigger] ls[i], key) by {}
        assert(!has_key(ls, key));
        assert(r =~= ls.push(KvLine::Entry { key, value, prefix: seq![], delimiter }));
    } else {
        let i = choose|i: int|
            0 <= i < ls.len() && (#[trigger] ls[i] matches KvLine::Entry { key: k, .. } && k
                == key);
        assert(sets(ls[i], key));
        assert(has_key(ls, key));
    }
}

/// Several keys are set one after the other, in the order in which they are given.
pub proof fn law_keys_are_set_in_order(
    ls: Seq<KvLine<Seq<char>>>,
    a: Seq<(Seq<char>, Seq<char>)>,
    b: Seq<(Seq<char>, Seq<char>)>,
    delimiter: char,
)
    ensures
        with_values(ls, a + b, delimiter) == with_values(
            with_values(ls, a, delimiter),
            b,
            delimiter,
        ),
        a.len() == 1 ==> with_values(ls, a, delimiter) == with_value(
            ls,
            a[0].0,
            a[0].1,
            delimiter,
        ),
        a.len() == 0 ==> with_values(ls, a, delimiter) == ls,
    decreases b.len(),
{
    if a.len() == 1 {
        assert(a.drop_last() =~= seq![]);
        assert(with_values(ls, a.drop_last(), delimiter) == ls);
    }
    if b.len() == 0 {
        assert(a + b =~= a);
    } else {
        assert((a + b).drop_last() =~= a + b.drop_last());
        law_keys_are_set_in_order(ls, a, b.drop_last(), delimiter);
    }
}

} // verus!

//! Holding packages of the guest in the configuration of its package manager.

use vstd::prelude::*;

use crate::lines::{
    drop_cr, is_line, is_word, join, joined, joined_lines, lemma_cut_drop_cr, lemma_drop_front_cr,
    lemma_joined_words, lemma_lines_are_lines, lemma_lines_unlines, lemma_trim_drop_cr,
    lemma_words_are_words, lemma_words_drop_cr, lemma_words_join, lines, split_lines, split_words,
    unlines, words,
};
use crate::text::{
    begins, begins_with, cut, cut_at, drop_back, drop_front, encloses, ends_in, finishes, in_class,
    is_blank, is_space, law_a_text_is_cut_at_the_first, law_blanks_around_are_trimmed,
    law_the_front_is_dropped, law_trimming_takes_the_ends_off, lemma_cut_parts,
    lemma_position_is, same, texts, trim, trimmed, without_front, Class,
};

verus! {

/// The packages that are held so that they fit the audio services of the app.
pub open spec fn lock_packages() -> Seq<Seq<char>> {
    seq![
        "libpipewire"@,
        "pipewire"@,
        "pipewire-alsa"@,
        "pipewire-audio"@,
        "pipewire-jack"@,
        "pipewire-pulse"@,
        "pipewire-v4l2"@,
        "pipewire-zeroconf"@,
        "gst-plugin-pipewire"@,
        "wireplumber"@,
    ]
}

/// Lists the packages that are held.
pub fn pipewire_guest_lock_packages() -> (r: Vec<String>)
    ensures
        texts(r@) == lock_packages(),
{
    let mut v: Vec<String> = Vec::new();
    v.push("libpipewire".to_owned());
    v.push("pipewire".to_owned());
    v.push("pipewire-alsa".to_owned());
    v.push("pipewire-audio".to_owned());
    v.push("pipewire-jack".to_owned());
    v.push("pipewire-pulse".to_owned());
    v.push("pipewire-v4l2".to_owned());
    v.push("pipewire-zeroconf".to_owned());
    v.push("gst-plugin-pipewire".to_owned());
    v.push("wireplumber".to_owned());
    assert(texts(v@) =~= lock_packages());
    v
}

// ---------------------------------------------------------------------------
// Reading the configuration
// ---------------------------------------------------------------------------

/// The header of the section that holds packages.
pub open spec fn is_options(line: Seq<char>) -> bool {
    trim(line) == "[options]"@
}

/// The header of some section.
pub open spec fn is_header(line: Seq<char>) -> bool {
    begins(trim(line), "["@) && finishes(trim(line), "]"@)
}

/// The first line from `i` on that begins the section.
pub open spec fn options_at(ls: Seq<Seq<char>>, i: int) -> Option<int>
    decreases ls.len() - i,
{
    if i < 0 || i >= ls.len() {
        None
    } else if is_options(ls[i]) {
        Some(i)
    } else {
        options_at(ls, i + 1)
    }
}

/// Where the section ends whose lines begin at `i`: at the next header, or
/// behind the last line.
pub open spec fn section_end(ls: Seq<Seq<char>>, i: int) -> int
    decreases ls.len() - i,
{
    if i < 0 || i >= ls.len() {
        ls.len() as int
    } else if is_header(ls[i]) {
        i
    } else {
        section_end(ls, i + 1)
    }
}

/// A line behind its first blanks, its comment signs and the blanks behind them.
pub open spec fn uncommented(line: Seq<char>) -> Seq<char> {
    let t = drop_front(line, Class::Space);
    if begins(t, "#"@) {
        drop_front(drop_front(t, Class::One('#')), Class::Space)
    } else {
        t
    }
}

/// Whether a line is no comment.
pub open spec fn is_active(line: Seq<char>) -> bool {
    !begins(drop_front(line, Class::Space), "#"@)
}

/// What a line, be it a comment or not, sets the held packages to.
pub open spec fn held_by(line: Seq<char>) -> Option<Seq<char>> {
    match cut(uncommented(line), '=') {
        Some((key, value)) => if trim(key) == "IgnorePkg"@ {
            Some(value)
        } else {
            None
        },
        None => None,
    }
}

/// A line that holds packages.
pub open spec fn holds(line: Seq<char>) -> bool {
    is_active(line) && held_by(line) is Some
}

/// The first line from `i` up to `end` that holds packages.
pub open spec fn first_hold(ls: Seq<Seq<char>>, i: int, end: int) -> Option<int>
    decreases end - i,
{
    if i < 0 || i >= end || i >= ls.len() {
        None
    } else if holds(ls[i]) {
        Some(i)
    } else {
        first_hold(ls, i + 1, end)
    }
}

/// Where a new line goes: behind the last comment from `i` up to `end` that
/// shows one, or at `otherwise`.
pub open spec fn hold_place(ls: Seq<Seq<char>>, i: int, end: int, otherwise: int) -> int
    decreases end - i,
{
    if i < 0 || i >= end || i >= ls.len() {
        otherwise
    } else if held_by(ls[i]) is Some {
        hold_place(ls, i + 1, end, i + 1)
    } else {
        hold_place(ls, i + 1, end, otherwise)
    }
}

// ---------------------------------------------------------------------------
// Holding
// ---------------------------------------------------------------------------

/// The words and, behind them, the packages that are not among them.
pub open spec fn merged(ws: Seq<Seq<char>>, packages: Seq<Seq<char>>) -> Seq<Seq<char>>
    decreases packages.len(),
{
    if packages.len() == 0 {
        ws
    } else {
        let done = merged(ws, packages.drop_last());
        if done.contains(packages.last()) {
            done
        } else {
            done.push(packages.last())
        }
    }
}

/// The line that holds these packages.
pub open spec fn hold_line(value: Seq<char>) -> Seq<char> {
    "IgnorePkg   = "@ + value
}

/// The lines of the configuration with the packages held: in the first line of
/// the section that holds packages, or in a new one.
pub open spec fn held_lines(ls: Seq<Seq<char>>, packages: Seq<Seq<char>>) -> Seq<Seq<char>> {
    match options_at(ls, 0) {
        Some(start) => {
            let end = section_end(ls, start + 1);
            match first_hold(ls, start + 1, end) {
                Some(i) => ls.update(
                    i,
                    hold_line(join(merged(words(held_by(ls[i])->0), packages), " "@)),
                ),
                None => ls.insert(
                    hold_place(ls, start + 1, end, start + 1),
                    hold_line(join(packages, " "@)),
                ),
            }
        },
        None => (if ls.len() == 0 {
            ls
        } else {
            ls.push(seq![])
        }).push("[options]"@).push(hold_line(join(packages, " "@))),
    }
}

/// The configuration with the packages held.
pub open spec fn held_config(content: Seq<char>, packages: Seq<Seq<char>>) -> Seq<char> {
    unlines(held_lines(lines(content), packages))
}

/// Finds the section.
fn find_options(ls: &Vec<String>) -> (r: Option<usize>)
    ensures
        match r {
            Some(i) => i < ls.len() && options_at(texts(ls@), 0) == Some(i as int),
            None => options_at(texts(ls@), 0) is None,
        },
{
    let ghost all = texts(ls@);
    let mut i: usize = 0;
    while i < ls.len()
        invariant
            i <= ls.len(),
            all == texts(ls@),
            options_at(all, i as int) == options_at(all, 0),
        decreases ls.len() - i,
    {
        assert(all[i as int] == ls@[i as int]@);
        let t = trimmed(ls[i].as_str());
        if same(t.as_str(), "[options]") {
            return Some(i);
        }
        i = i + 1;
    }
    None
}

/// Finds where the section ends whose lines begin at `from`.
fn find_section_end(ls: &Vec<String>, from: usize) -> (r: usize)
    requires
        from <= ls.len(),
    ensures
        from <= r <= ls.len(),
        r == section_end(texts(ls@), from as int),
{
    let ghost all = texts(ls@);
    let mut i: usize = from;
    while i < ls.len()
        invariant
            from <= i <= ls.len(),
            all == texts(ls@),
            section_end(all, i as int) == section_end(all, from as int),
        decreases ls.len() - i,
    {
        assert(all[i as int] == ls@[i as int]@);
        let t = trimmed(ls[i].as_str());
        if begins_with(t.as_str(), "[") && ends_in(t.as_str(), "]") {
            return i;
        }
        i = i + 1;
    }
    i
}

/// Reads what a line sets the held packages to, and whether it is no comment.
fn read_hold(line: &str) -> (r: (bool, Option<String>))
    ensures
        r.0 == is_active(line@),
        crate::text::opt_text(r.1) == held_by(line@),
{
    let t = without_front(line, Class::Space);
    let active: bool = !begins_with(t.as_str(), "#");
    let candidate: String = if active {
        t
    } else {
        let u = without_front(t.as_str(), Class::One('#'));
        without_front(u.as_str(), Class::Space)
    };
    match cut_at(candidate.as_str(), '=') {
        Some(kv) => {
            let (key, value) = kv;
            let k = trimmed(key.as_str());
            if same(k.as_str(), "IgnorePkg") {
                (active, Some(value))
            } else {
                (active, None)
            }
        },
        None => (active, None),
    }
}

/// Whether a text is among others.
pub fn listed(v: &Vec<String>, s: &str) -> (r: bool)
    ensures
        r == texts(v@).contains(s@),
{
    let mut i: usize = 0;
    while i < v.len()
        invariant
            i <= v.len(),
            forall|j: int| 0 <= j < i ==> texts(v@)[j] != s@,
        decreases v.len() - i,
    {
        if same(v[i].as_str(), s) {
            assert(texts(v@)[i as int] == s@);
            return true;
        }
        i = i + 1;
    }
    false
}

/// Adds packages to a list that is written out.
pub fn merge_pacman_list(existing: &str, packages: &Vec<String>) -> (r: String)
    ensures
        r@ == join(merged(words(existing@), texts(packages@)), " "@),
{
    let mut values = split_words(existing);
    let ghost all = texts(packages@);
    let mut i: usize = 0;
    assert(all.take(0) =~= seq![]);
    while i < packages.len()
        invariant
            i <= packages.len(),
            all == texts(packages@),
            texts(values@) == merged(words(existing@), all.take(i as int)),
        decreases packages.len() - i,
    {
        let ghost was = texts(values@);
        assert(all.take(i + 1).drop_last() =~= all.take(i as int));
        assert(all.take(i + 1).last() == packages@[i as int]@);
        if !listed(&values, packages[i].as_str()) {
            let p = packages[i].clone();
            values.push(p);
            assert(texts(values@) =~= was.push(p@));
        }
        i = i + 1;
    }
    assert(all.take(i as int) =~= all);
    joined(&values, " ")
}

/// Writes the line that holds packages.
fn write_hold_line(value: &str) -> (r: String)
    ensures
        r@ == hold_line(value@),
{
    let mut r = "IgnorePkg   = ".to_owned();
    r.append(value);
    r
}

/// Holds packages, beside those that are held already.
pub fn ensure_pacman_ignore_pkg(content: &str, packages: &Vec<String>) -> (r: String)
    ensures
        r@ == held_config(content@, texts(packages@)),
{
    let mut ls = split_lines(content);
    let ghost all = lines(content@);
    let value = joined(packages, " ");
    let start: usize = match find_options(&ls) {
        Some(start) => start,
        None => {
            let ghost n = ls@.len();
            let ghost at = if n == 0 {
                all
            } else {
                all.push(seq![])
            };
            if ls.len() > 0 {
                ls.push(String::new());
                assert(texts(ls@) =~= at);
            }
            ls.push("[options]".to_owned());
            assert(texts(ls@) =~= at.push("[options]"@));
            ls.push(write_hold_line(value.as_str()));
            assert(texts(ls@) =~= held_lines(all, texts(packages@)));
            return joined_lines(&ls);
        },
    };
    let end: usize = find_section_end(&ls, start + 1);
    let mut place: usize = start + 1;
    let mut i: usize = start + 1;
    while i < end
        invariant
            start + 1 <= i <= end,
            end <= ls.len(),
            start + 1 <= place <= end,
            all == texts(ls@),
            all == lines(content@),
            value@ == join(texts(packages@), " "@),
            options_at(all, 0) == Some(start as int),
            end == section_end(all, start + 1),
            first_hold(all, i as int, end as int) == first_hold(all, start + 1, end as int),
            hold_place(all, i as int, end as int, place as int) == hold_place(
                all,
                start + 1,
                end as int,
                start + 1,
            ),
        decreases end - i,
    {
        assert(all[i as int] == ls@[i as int]@);
        let (active, hold) = read_hold(ls[i].as_str());
        match hold {
            Some(existing) => {
                if active {
                    let list = merge_pacman_list(existing.as_str(), packages);
                    let line = write_hold_line(list.as_str());
                    ls.set(i, line);
                    assert(texts(ls@) =~= all.update(i as int, line@));
                    return joined_lines(&ls);
                }
                place = i + 1;
            },
            None => {},
        }
        i = i + 1;
    }
    let line = write_hold_line(value.as_str());
    ls.insert(place, line);
    assert(texts(ls@) =~= all.insert(place as int, line@));
    joined_lines(&ls)
}

// ---------------------------------------------------------------------------
// Letting go
// ---------------------------------------------------------------------------

/// The words that are not among the packages.
pub open spec fn without(ws: Seq<Seq<char>>, packages: Seq<Seq<char>>) -> Seq<Seq<char>>
    decreases ws.len(),
{
    if ws.len() == 0 {
        seq![]
    } else if packages.contains(ws.last()) {
        without(ws.drop_last(), packages)
    } else {
        without(ws.drop_last(), packages).push(ws.last())
    }
}

/// A line of the section with the packages let go.
pub open spec fn freed_line(line: Seq<char>, packages: Seq<Seq<char>>) -> Seq<char> {
    if holds(line) {
        let rest = join(without(words(held_by(line)->0), packages), " "@);
        if rest.len() == 0 {
            "IgnorePkg   ="@
        } else {
            hold_line(rest)
        }
    } else {
        line
    }
}

/// The lines with the packages let go from `from` up to `end`.
pub open spec fn freed_between(
    ls: Seq<Seq<char>>,
    from: int,
    end: int,
    packages: Seq<Seq<char>>,
) -> Seq<Seq<char>> {
    Seq::new(
        ls.len(),
        |i: int|
            if from <= i < end {
                freed_line(ls[i], packages)
            } else {
                ls[i]
            },
    )
}

/// The lines of the configuration with the packages let go.
pub open spec fn freed_lines(ls: Seq<Seq<char>>, packages: Seq<Seq<char>>) -> Seq<Seq<char>> {
    match options_at(ls, 0) {
        Some(start) => freed_between(ls, start + 1, section_end(ls, start + 1), packages),
        None => ls,
    }
}

/// The configuration with the packages let go.
pub open spec fn freed_config(content: Seq<char>, packages: Seq<Seq<char>>) -> Seq<char> {
    unlines(freed_lines(lines(content), packages))
}

/// Takes packages out of a list of words.
fn take_out(ws: &Vec<String>, packages: &Vec<String>) -> (r: Vec<String>)
    ensures
        texts(r@) == without(texts(ws@), texts(packages@)),
{
    let mut out: Vec<String> = Vec::new();
    let ghost all = texts(ws@);
    let mut i: usize = 0;
    assert(all.take(0) =~= seq![]);
    assert(texts(out@) =~= seq![]);
    while i < ws.len()
        invariant
            i <= ws.len(),
            all == texts(ws@),
            texts(out@) == without(all.take(i as int), texts(packages@)),
        decreases ws.len() - i,
    {
        let ghost was = texts(out@);
        assert(all.take(i + 1).drop_last() =~= all.take(i as int));
        assert(all.take(i + 1).last() == ws@[i as int]@);
        if !listed(packages, ws[i].as_str()) {
            let w = ws[i].clone();
            out.push(w);
            assert(texts(out@) =~= was.push(w@));
        }
        i = i + 1;
    }
    assert(all.take(i as int) =~= all);
    out
}

/// Lets packages go in one line.
fn free_line(line: &str, packages: &Vec<String>) -> (r: String)
    ensures
        r@ == freed_line(line@, texts(packages@)),
{
    let (active, hold) = read_hold(line);
    match hold {
        Some(existing) => {
            if !active {
                return line.to_owned();
            }
            let ws = split_words(existing.as_str());
            let rest = take_out(&ws, packages);
            let list = joined(&rest, " ");
            if list.as_str().is_empty() {
                "IgnorePkg   =".to_owned()
            } else {
                write_hold_line(list.as_str())
            }
        },
        None => line.to_owned(),
    }
}

/// Lets packages go, wherever the section holds them.
pub fn remove_pacman_ignore_pkg(content: &str, packages: &Vec<String>) -> (r: String)
    ensures
        r@ == freed_config(content@, texts(packages@)),
{
    let mut ls = split_lines(content);
    let ghost all = lines(content@);
    let start: usize = match find_options(&ls) {
        Some(start) => start,
        None => {
            return joined_lines(&ls);
        },
    };
    let end: usize = find_section_end(&ls, start + 1);
    let mut i: usize = start + 1;
    assert(texts(ls@) =~= freed_between(all, start + 1, i as int, texts(packages@)));
    while i < end
        invariant
            start + 1 <= i <= end,
            end <= ls.len(),
            ls@.len() == all.len(),
            texts(ls@) == freed_between(all, start + 1, i as int, texts(packages@)),
        decreases end - i,
    {
        let ghost was = texts(ls@);
        assert(was[i as int] == ls@[i as int]@);
        let line = free_line(ls[i].as_str(), packages);
        ls.set(i, line);
        assert(texts(ls@) =~= was.update(i as int, line@));
        assert(texts(ls@) =~= freed_between(all, start + 1, i + 1, texts(packages@)));
        i = i + 1;
    }
    joined_lines(&ls)
}

/// What to write so that the packages are held; none where they are.
pub fn lock_update(content: &str) -> (r: Option<String>)
    ensures
        match r {
            Some(s) => s@ == held_config(content@, lock_packages()) && s@ != content@,
            None => held_config(content@, lock_packages()) == content@,
        },
{
    let packages = pipewire_guest_lock_packages();
    let updated = ensure_pacman_ignore_pkg(content, &packages);
    if same(updated.as_str(), content) {
        None
    } else {
        Some(updated)
    }
}

/// What to write so that the packages can be installed; none where they can.
pub fn unlock_update(content: &str) -> (r: Option<String>)
    ensures
        match r {
            Some(s) => s@ == freed_config(content@, lock_packages()) && s@ != content@,
            None => freed_config(content@, lock_packages()) == content@,
        },
{
    let packages = pipewire_guest_lock_packages();
    let updated = remove_pacman_ignore_pkg(content, &packages);
    if same(updated.as_str(), content) {
        None
    } else {
        Some(updated)
    }
}

// ---------------------------------------------------------------------------
// What holds of every configuration
// ---------------------------------------------------------------------------

/// Names of packages.
pub open spec fn are_names(packages: Seq<Seq<char>>) -> bool {
    forall|i: int| 0 <= i < packages.len() ==> is_word(#[trigger] packages[i])
}

/// A package is held: the first line of the section that holds packages lists it.
pub open spec fn is_held(content: Seq<char>, package: Seq<char>) -> bool {
    let ls = lines(content);
    options_at(ls, 0) matches Some(start) && first_hold(
        ls,
        start + 1,
        section_end(ls, start + 1),
    ) matches Some(i) && words(held_by(ls[i])->0).contains(package)
}

/// A package is let go: no line of the section that holds packages lists it.
pub open spec fn is_free(content: Seq<char>, package: Seq<char>) -> bool {
    let ls = lines(content);
    options_at(ls, 0) matches Some(start) ==> forall|i: int|
        start < i < section_end(ls, start + 1) && holds(#[trigger] ls[i]) ==> !words(
            held_by(ls[i])->0,
        ).contains(package)
}

proof fn lemma_options_at(ls: Seq<Seq<char>>, i: int)
    requires
        0 <= i,
    ensures
        match options_at(ls, i) {
            Some(p) => i <= p < ls.len() && is_options(ls[p]) && forall|j: int|
                i <= j < p ==> !is_options(#[trigger] ls[j]),
            None => forall|j: int| i <= j < ls.len() ==> !is_options(#[trigger] ls[j]),
        },
    decreases ls.len() - i,
{
    if i < ls.len() && !is_options(ls[i]) {
        lemma_options_at(ls, i + 1);
    }
}

proof fn lemma_options_at_is(ls: Seq<Seq<char>>, i: int, p: int)
    requires
        0 <= i <= p < ls.len(),
        is_options(ls[p]),
        forall|j: int| i <= j < p ==> !is_options(#[trigger] ls[j]),
    ensures
        options_at(ls, i) == Some(p),
    decreases p - i,
{
    if i < p {
        assert(!is_options(ls[i]));
        lemma_options_at_is(ls, i + 1, p);
    }
}

proof fn lemma_section_end(ls: Seq<Seq<char>>, i: int)
    requires
        0 <= i <= ls.len(),
    ensures
        i <= section_end(ls, i) <= ls.len(),
        section_end(ls, i) < ls.len() ==> is_header(ls[section_end(ls, i)]),
        forall|j: int| i <= j < section_end(ls, i) ==> !is_header(#[trigger] ls[j]),
    decreases ls.len() - i,
{
    if i < ls.len() && !is_header(ls[i]) {
        lemma_section_end(ls, i + 1);
    }
}

proof fn lemma_section_end_is(ls: Seq<Seq<char>>, i: int, e: int)
    requires
        0 <= i <= e <= ls.len(),
        e < ls.len() ==> is_header(ls[e]),
        forall|j: int| i <= j < e ==> !is_header(#[trigger] ls[j]),
    ensures
        section_end(ls, i) == e,
    decreases e - i,
{
    if i < e {
        assert(!is_header(ls[i]));
        lemma_section_end_is(ls, i + 1, e);
    }
}

proof fn lemma_first_hold(ls: Seq<Seq<char>>, i: int, end: int)
    requires
        0 <= i,
        end <= ls.len(),
    ensures
        match first_hold(ls, i, end) {
            Some(p) => i <= p < end && holds(ls[p]) && forall|j: int|
                i <= j < p ==> !holds(#[trigger] ls[j]),
            None => forall|j: int| i <= j < end ==> !holds(#[trigger] ls[j]),
        },
    decreases end - i,
{
    if i < end && !holds(ls[i]) {
        lemma_first_hold(ls, i + 1, end);
    }
}

proof fn lemma_first_hold_is(ls: Seq<Seq<char>>, i: int, p: int, end: int)
    requires
        0 <= i <= p < end <= ls.len(),
        holds(ls[p]),
        forall|j: int| i <= j < p ==> !holds(#[trigger] ls[j]),
    ensures
        first_hold(ls, i, end) == Some(p),
    decreases p - i,
{
    if i < p {
        assert(!holds(ls[i]));
        lemma_first_hold_is(ls, i + 1, p, end);
    }
}

proof fn lemma_hold_place(ls: Seq<Seq<char>>, i: int, end: int, otherwise: int, low: int)
    requires
        0 <= low <= i,
        low <= otherwise,
        otherwise <= end || i >= end,
        low <= end <= ls.len(),
        otherwise <= end,
    ensures
        low <= hold_place(ls, i, end, otherwise) <= end,
    decreases end - i,
{
    if i < end {
        if held_by(ls[i]) is Some {
            lemma_hold_place(ls, i + 1, end, i + 1, low);
        } else {
            lemma_hold_place(ls, i + 1, end, otherwise, low);
        }
    }
}

/// A carriage return at the end of a line changes nothing of what it means.
proof fn lemma_line_drop_cr(line: Seq<char>)
    ensures
        is_options(drop_cr(line)) == is_options(line),
        is_header(drop_cr(line)) == is_header(line),
        is_active(drop_cr(line)) == is_active(line),
        match held_by(line) {
            Some(v) => held_by(drop_cr(line)) == Some(drop_cr(v)),
            None => held_by(drop_cr(line)) is None,
        },
{
    reveal_strlit("#");
    lemma_trim_drop_cr(line);
    lemma_drop_front_cr(line, Class::Space);
    let t = drop_front(line, Class::Space);
    assert(begins(drop_cr(t), "#"@) == begins(t, "#"@)) by {
        if t.len() > 0 {
            if t.last() == '\r' && t.len() == 1 {
                assert(t.subrange(0, 1)[0] == '\r');
                assert("#"@[0] == '#');
            } else if t.last() == '\r' {
                assert(t.subrange(0, 1) =~= drop_cr(t).subrange(0, 1));
            }
        }
    }
    lemma_drop_front_cr(t, Class::One('#'));
    lemma_drop_front_cr(drop_front(t, Class::One('#')), Class::Space);
    assert(uncommented(drop_cr(line)) == drop_cr(uncommented(line)));
    lemma_cut_drop_cr(uncommented(line), '=');
}

/// What the line that holds packages means.
proof fn lemma_hold_line(value: Seq<char>)
    ensures
        holds(hold_line(value)),
        held_by(hold_line(value)) == Some(seq![' '] + value),
        !is_header(hold_line(value)),
        !is_options(hold_line(value)),
        hold_line(value).len() > 0,
        hold_line(value).last() == if value.len() > 0 {
            value.last()
        } else {
            ' '
        },
        is_line(value) ==> is_line(hold_line(value)),
{
    reveal_strlit("IgnorePkg   = ");
    reveal_strlit("IgnorePkg");
    reveal_strlit("#");
    reveal_strlit("[");
    reveal_strlit("[options]");
    let line = hold_line(value);
    assert(line[0] == 'I');
    assert(drop_front(line, Class::Space) == line);
    assert(!begins(line, "#"@)) by {
        assert(line.subrange(0, 1)[0] == 'I');
        assert("#"@[0] == '#');
    }
    lemma_position_is(line, '=', 12);
    let key = line.take(12);
    assert(key =~= seq!['I', 'g', 'n', 'o', 'r', 'e', 'P', 'k', 'g', ' ', ' ', ' ']);
    assert(drop_front(key, Class::Space) == key);
    assert(drop_back(key, Class::Space) == "IgnorePkg"@) by {
        reveal_with_fuel(drop_back, 4);
        assert(key.drop_last().drop_last().drop_last() =~= "IgnorePkg"@);
    }
    assert(line.skip(13) =~= seq![' '] + value);
    assert(line.len() == 14 + value.len());
    lemma_trimmed_first(line);
    assert(trim(line)[0] == 'I');
    assert(!begins(trim(line), "["@)) by {
        if trim(line).len() >= 1 {
            assert(trim(line).subrange(0, 1)[0] == 'I');
            assert("["@[0] == '[');
        }
    }
    assert("[options]"@[0] == '[');
}

/// A text that begins with no blank keeps its first character when it is trimmed.
proof fn lemma_trimmed_first(s: Seq<char>)
    requires
        s.len() > 0,
        !is_space(s[0]),
    ensures
        trim(s).len() > 0,
        trim(s)[0] == s[0],
    decreases s.len(),
{
    assert(drop_front(s, Class::Space) == s);
    if s.len() > 1 && is_space(s.last()) {
        lemma_trimmed_first(s.drop_last());
        assert(drop_front(s.drop_last(), Class::Space) == s.drop_last());
    }
}

/// Merging keeps the words and brings in every package.
proof fn lemma_merged(ws: Seq<Seq<char>>, packages: Seq<Seq<char>>)
    ensures
        forall|w: Seq<char>| ws.contains(w) ==> merged(ws, packages).contains(w),
        forall|p: Seq<char>| packages.contains(p) ==> merged(ws, packages).contains(p),
        are_names(ws) && are_names(packages) ==> are_names(merged(ws, packages)),
    decreases packages.len(),
{
    if packages.len() > 0 {
        let front = packages.drop_last();
        let last = packages.last();
        lemma_merged(ws, front);
        let done = merged(ws, front);
        assert(done.push(last)[done.len() as int] == last);
        assert forall|w: Seq<char>| done.contains(w) implies merged(ws, packages).contains(w) by {
            let i = choose|i: int| 0 <= i < done.len() && done[i] == w;
            assert(done.push(last)[i] == w);
        }
        assert forall|p: Seq<char>| packages.contains(p) implies merged(
            ws,
            packages,
        ).contains(p) by {
            let i = choose|i: int| 0 <= i < packages.len() && packages[i] == p;
            if i < front.len() {
                assert(front[i] == p);
                assert(front.contains(p));
            }
        }
        if are_names(ws) && are_names(packages) {
            assert forall|i: int| 0 <= i < front.len() implies is_word(#[trigger] front[i]) by {
                assert(front[i] == packages[i]);
            }
            assert(is_word(packages[packages.len() - 1]));
        }
    }
}

/// Merging what is there already changes nothing.
proof fn lemma_merged_again(ws: Seq<Seq<char>>, packages: Seq<Seq<char>>)
    requires
        forall|p: Seq<char>| packages.contains(p) ==> ws.contains(p),
    ensures
        merged(ws, packages) == ws,
    decreases packages.len(),
{
    if packages.len() > 0 {
        let front = packages.drop_last();
        assert forall|p: Seq<char>| front.contains(p) implies ws.contains(p) by {
            let i = choose|i: int| 0 <= i < front.len() && front[i] == p;
            assert(packages[i] == p);
        }
        lemma_merged_again(ws, front);
        assert(packages[packages.len() - 1] == packages.last());
        assert(packages.contains(packages.last()));
    }
}

/// A joined list, read again as words behind a blank.
proof fn lemma_list_read_again(ws: Seq<Seq<char>>)
    requires
        are_names(ws),
    ensures
        words(seq![' '] + join(ws, " "@)) == ws,
        is_line(join(ws, " "@)),
        join(ws, " "@).len() > 0 ==> !is_space(join(ws, " "@).last()),
        join(ws, " "@).len() == 0 <==> ws.len() == 0,
{
    reveal_strlit(" ");
    assert(" "@ =~= seq![' ']);
    lemma_words_join(ws);
    lemma_joined_words(ws);
    let s = seq![' '] + join(ws, " "@);
    assert(s.drop_first() =~= join(ws, " "@));
}

/// The lines that holding packages leaves: where the section stands, where it
/// ends, and the line in it that holds them.
proof fn lemma_held_lines(ls: Seq<Seq<char>>, packages: Seq<Seq<char>>) -> (r: (
    int,
    int,
    int,
    Seq<Seq<char>>,
))
    requires
        are_names(packages),
        forall|i: int| 0 <= i < ls.len() ==> is_line(#[trigger] ls[i]),
    ensures
        ({
            let parts = held_lines(ls, packages);
            let (start, i, end, ws) = r;
            &&& options_at(parts, 0) == Some(start)
            &&& section_end(parts, start + 1) == end
            &&& first_hold(parts, start + 1, end) == Some(i)
            &&& start < i < end <= parts.len()
            &&& parts[i] == hold_line(join(ws, " "@))
            &&& are_names(ws)
            &&& forall|p: Seq<char>| packages.contains(p) ==> ws.contains(p)
            &&& forall|p: Seq<char>|
                options_at(ls, 0) is Some && first_hold(
                    ls,
                    options_at(ls, 0)->0 + 1,
                    section_end(ls, options_at(ls, 0)->0 + 1),
                ) is Some && words(
                    held_by(
                        ls[first_hold(
                            ls,
                            options_at(ls, 0)->0 + 1,
                            section_end(ls, options_at(ls, 0)->0 + 1),
                        )->0],
                    )->0,
                ).contains(p) ==> ws.contains(p)
            &&& forall|j: int| 0 <= j < parts.len() ==> is_line(#[trigger] parts[j])
            &&& forall|j: int|
                0 <= j < parts.len() && j != i ==> (#[trigger] parts[j] == Seq::<char>::empty() || parts[j]
                    == "[options]"@ || ls.contains(parts[j]))
        }),
{
    let parts = held_lines(ls, packages);
    lemma_options_at(ls, 0);
    lemma_list_read_again(packages);
    match options_at(ls, 0) {
        Some(start) => {
            let end = section_end(ls, start + 1);
            lemma_section_end(ls, start + 1);
            lemma_first_hold(ls, start + 1, end);
            match first_hold(ls, start + 1, end) {
                Some(i) => {
                    let ws = words(held_by(ls[i])->0);
                    let all = merged(ws, packages);
                    lemma_words_are_words(held_by(ls[i])->0);
                    lemma_merged(ws, packages);
                    lemma_list_read_again(all);
                    lemma_hold_line(join(all, " "@));
                    assert forall|j: int| 0 <= j < start implies !is_options(
                        #[trigger] parts[j],
                    ) by {
                        assert(parts[j] == ls[j]);
                    }
                    assert(parts[start] == ls[start]);
                    lemma_options_at_is(parts, 0, start);
                    assert forall|j: int| start + 1 <= j < end implies !is_header(
                        #[trigger] parts[j],
                    ) by {
                        if j != i {
                            assert(parts[j] == ls[j]);
                        }
                    }
                    if end < ls.len() {
                        assert(parts[end] == ls[end]);
                    }
                    lemma_section_end_is(parts, start + 1, end);
                    assert forall|j: int| start + 1 <= j < i implies !holds(
                        #[trigger] parts[j],
                    ) by {
                        assert(parts[j] == ls[j]);
                    }
                    lemma_first_hold_is(parts, start + 1, i, end);
                    assert forall|j: int| 0 <= j < parts.len() implies is_line(
                        #[trigger] parts[j],
                    ) && (j != i ==> ls.contains(parts[j])) by {
                        if j != i {
                            assert(parts[j] == ls[j]);
                        }
                    }
                    (start, i, end, all)
                },
                None => {
                    let at = hold_place(ls, start + 1, end, start + 1);
                    lemma_hold_place(ls, start + 1, end, start + 1, start + 1);
                    lemma_hold_line(join(packages, " "@));
                    assert forall|j: int| 0 <= j < start implies !is_options(
                        #[trigger] parts[j],
                    ) by {
                        assert(parts[j] == ls[j]);
                    }
                    assert(parts[start] == ls[start]);
                    lemma_options_at_is(parts, 0, start);
                    assert forall|j: int| start + 1 <= j < end + 1 implies !is_header(
                        #[trigger] parts[j],
                    ) by {
                        if j < at {
                            assert(parts[j] == ls[j]);
                        } else if j > at {
                            assert(parts[j] == ls[j - 1]);
                        }
                    }
                    if end < ls.len() {
                        assert(parts[end + 1] == ls[end]);
                    }
                    lemma_section_end_is(parts, start + 1, end + 1);
                    assert forall|j: int| start + 1 <= j < at implies !holds(
                        #[trigger] parts[j],
                    ) by {
                        assert(parts[j] == ls[j]);
                    }
                    lemma_first_hold_is(parts, start + 1, at, end + 1);
                    assert forall|j: int| 0 <= j < parts.len() implies is_line(
                        #[trigger] parts[j],
                    ) && (j != at ==> ls.contains(parts[j])) by {
                        if j < at {
                            assert(parts[j] == ls[j]);
                        } else if j > at {
                            assert(parts[j] == ls[j - 1]);
                        }
                    }
                    (start, at, end + 1, packages)
                },
            }
        },
        None => {
            let start = parts.len() - 2;
            lemma_hold_line(join(packages, " "@));
            lemma_empty_line();
            assert forall|j: int| 0 <= j < start implies !is_options(#[trigger] parts[j]) by {
                if j < ls.len() {
                    assert(parts[j] == ls[j]);
                } else {
                    assert(parts[j] == Seq::<char>::empty());
                }
            }
            assert(parts[start] == "[options]"@);
            lemma_options_at_is(parts, 0, start);
            assert(parts[start + 1] == hold_line(join(packages, " "@)));
            lemma_section_end_is(parts, start + 1, start + 2);
            lemma_first_hold_is(parts, start + 1, start + 1, start + 2);
            assert forall|j: int| 0 <= j < parts.len() implies is_line(#[trigger] parts[j]) && (j
                != start + 1 ==> (parts[j] == Seq::<char>::empty() || parts[j] == "[options]"@
                || ls.contains(parts[j]))) by {
                if j < ls.len() {
                    assert(parts[j] == ls[j]);
                }
            }
            (start, start + 1, start + 2, packages)
        },
    }
}

/// The header of the section is one line, and an empty line is no header.
proof fn lemma_empty_line()
    ensures
        is_options("[options]"@),
        is_line("[options]"@),
        "[options]"@.len() > 0,
        "[options]"@.last() == ']',
        !is_options(Seq::<char>::empty()),
        is_line(Seq::<char>::empty()),
{
    reveal_strlit("[options]");
    assert(drop_front("[options]"@, Class::Space) == "[options]"@);
    assert(drop_back("[options]"@, Class::Space) == "[options]"@);
    assert(trim(Seq::<char>::empty()).len() == 0);
}

/// Lines that were written, read again: nothing of what they mean is lost.
proof fn lemma_read_again(parts: Seq<Seq<char>>, start: int, end: int)
    requires
        parts.len() > 0,
        forall|j: int| 0 <= j < parts.len() ==> is_line(#[trigger] parts[j]),
        options_at(parts, 0) == Some(start),
        section_end(parts, start + 1) == end,
    ensures
        lines(unlines(parts)) == parts.map_values(|l: Seq<char>| drop_cr(l)),
        options_at(lines(unlines(parts)), 0) == Some(start),
        section_end(lines(unlines(parts)), start + 1) == end,
{
    lemma_lines_unlines(parts);
    let read = lines(unlines(parts));
    lemma_options_at(parts, 0);
    lemma_section_end(parts, start + 1);
    assert forall|j: int| 0 <= j < parts.len() implies is_options(#[trigger] read[j]) == is_options(
        parts[j],
    ) && is_header(read[j]) == is_header(parts[j]) by {
        lemma_line_drop_cr(parts[j]);
    }
    assert(is_options(read[start]));
    assert forall|j: int| 0 <= j < start implies !is_options(#[trigger] read[j]) by {
        assert(!is_options(parts[j]));
    }
    lemma_options_at_is(read, 0, start);
    assert forall|j: int| start + 1 <= j < end implies !is_header(#[trigger] read[j]) by {
        assert(!is_header(parts[j]));
    }
    lemma_section_end_is(read, start + 1, end);
}

/// Once packages are held, every one of them is, and so is every package that
/// was held before.
pub proof fn law_packages_are_held(
    content: Seq<char>,
    packages: Seq<Seq<char>>,
    package: Seq<char>,
)
    requires
        are_names(packages),
        packages.contains(package) || is_held(content, package),
    ensures
        is_held(held_config(content, packages), package),
{
    let ls = lines(content);
    lemma_lines_are_lines(content);
    let parts = held_lines(ls, packages);
    let (start, i, end, ws) = lemma_held_lines(ls, packages);
    lemma_read_again(parts, start, end);
    let read = lines(held_config(content, packages));
    lemma_first_hold(parts, start + 1, end);
    assert forall|j: int| 0 <= j < parts.len() implies holds(#[trigger] read[j]) == holds(
        parts[j],
    ) by {
        lemma_line_drop_cr(parts[j]);
    }
    assert(holds(read[i]));
    assert forall|j: int| start + 1 <= j < i implies !holds(#[trigger] read[j]) by {
        assert(!holds(parts[j]));
    }
    lemma_first_hold_is(read, start + 1, i, end);
    lemma_hold_line(join(ws, " "@));
    lemma_list_read_again(ws);
    lemma_line_drop_cr(parts[i]);
    lemma_words_drop_cr(seq![' '] + join(ws, " "@));
    assert(words(held_by(read[i])->0) == ws);
}

/// Holding packages that are held changes nothing: the second time, the
/// configuration stays as it is. Lines that end with a carriage return of their
/// own are left out: reading them again takes it off.
pub proof fn law_holding_twice_is_holding_once(content: Seq<char>, packages: Seq<Seq<char>>)
    requires
        are_names(packages),
        forall|i: int|
            0 <= i < lines(content).len() ==> drop_cr(#[trigger] lines(content)[i]) == lines(
                content,
            )[i],
    ensures
        held_config(held_config(content, packages), packages) == held_config(content, packages),
{
    let ls = lines(content);
    lemma_lines_are_lines(content);
    let parts = held_lines(ls, packages);
    let (start, i, end, ws) = lemma_held_lines(ls, packages);
    lemma_read_again(parts, start, end);
    lemma_hold_line(join(ws, " "@));
    lemma_list_read_again(ws);
    lemma_empty_line();
    assert forall|j: int| 0 <= j < parts.len() implies drop_cr(#[trigger] parts[j]) == parts[j] by {
        if j == i {
            assert(parts[i].last() != '\r');
        } else if ls.contains(parts[j]) {
            let k = choose|k: int| 0 <= k < ls.len() && ls[k] == parts[j];
            assert(drop_cr(ls[k]) == ls[k]);
        }
    }
    assert(lines(unlines(parts)) =~= parts);
    lemma_merged_again(ws, packages);
    assert(held_lines(parts, packages) =~= parts);
}

/// What is left of a list has none of the packages, and every other word of it.
proof fn lemma_without(ws: Seq<Seq<char>>, packages: Seq<Seq<char>>)
    ensures
        forall|w: Seq<char>|
            without(ws, packages).contains(w) <==> ws.contains(w) && !packages.contains(w),
        are_names(ws) ==> are_names(without(ws, packages)),
    decreases ws.len(),
{
    if ws.len() > 0 {
        let front = ws.drop_last();
        let last = ws.last();
        lemma_without(front, packages);
        let done = without(front, packages);
        assert forall|w: Seq<char>|
            without(ws, packages).contains(w) <==> ws.contains(w) && !packages.contains(w) by {
            if ws.contains(w) {
                let i = choose|i: int| 0 <= i < ws.len() && ws[i] == w;
                if i < front.len() {
                    assert(front[i] == w);
                    assert(front.contains(w));
                }
            }
            if front.contains(w) {
                let i = choose|i: int| 0 <= i < front.len() && front[i] == w;
                assert(ws[i] == w);
            }
            assert(ws[ws.len() - 1] == last);
            if done.contains(w) {
                let i = choose|i: int| 0 <= i < done.len() && done[i] == w;
                assert(done.push(last)[i] == w);
            }
            assert(done.push(last)[done.len() as int] == last);
        }
        if are_names(ws) {
            assert forall|i: int| 0 <= i < front.len() implies is_word(#[trigger] front[i]) by {
                assert(front[i] == ws[i]);
            }
            assert(is_word(ws[ws.len() - 1]));
        }
    }
}

/// What a line means once packages were let go in it.
proof fn lemma_freed_line(line: Seq<char>, packages: Seq<Seq<char>>)
    requires
        is_line(line),
    ensures
        is_line(freed_line(line, packages)),
        is_header(freed_line(line, packages)) == is_header(line) || holds(line),
        holds(line) ==> !is_header(freed_line(line, packages)),
        holds(freed_line(line, packages)) == holds(line),
        holds(line) ==> words(held_by(freed_line(line, packages))->0) == without(
            words(held_by(line)->0),
            packages,
        ),
{
    if holds(line) {
        let ws = words(held_by(line)->0);
        let rest = without(ws, packages);
        lemma_words_are_words(held_by(line)->0);
        lemma_without(ws, packages);
        lemma_list_read_again(rest);
        lemma_hold_line(join(rest, " "@));
        if join(rest, " "@).len() == 0 {
            lemma_empty_hold();
            assert(rest =~= seq![]);
        }
    }
}

/// What the line means that holds nothing.
proof fn lemma_empty_hold()
    ensures
        holds("IgnorePkg   ="@),
        words(held_by("IgnorePkg   ="@)->0) == Seq::<Seq<char>>::empty(),
        !is_header("IgnorePkg   ="@),
        is_line("IgnorePkg   ="@),
{
    reveal_strlit("IgnorePkg   =");
    reveal_strlit("IgnorePkg   = ");
    let e: Seq<char> = seq![];
    lemma_hold_line(e);
    let line = "IgnorePkg   ="@;
    assert(line.push(' ') =~= hold_line(e));
    assert(line[0] == 'I');
    assert(drop_front(line, Class::Space) == line);
    reveal_strlit("#");
    assert(!begins(line, "#"@)) by {
        assert(line.subrange(0, 1)[0] == 'I');
        assert("#"@[0] == '#');
    }
    lemma_position_is(line, '=', 12);
    lemma_position_is(hold_line(e), '=', 12);
    assert(line.take(12) =~= hold_line(e).take(12));
    assert(drop_front(hold_line(e), Class::Space) == hold_line(e));
    assert(line.skip(13) =~= e);
    lemma_trimmed_first(line);
    reveal_strlit("[");
    assert(!begins(trim(line), "["@)) by {
        if trim(line).len() >= 1 {
            assert(trim(line).subrange(0, 1)[0] == 'I');
            assert("["@[0] == '[');
        }
    }
}

/// The lines that letting go leaves have the section where it was.
proof fn lemma_freed_lines(ls: Seq<Seq<char>>, packages: Seq<Seq<char>>)
    requires
        forall|i: int| 0 <= i < ls.len() ==> is_line(#[trigger] ls[i]),
        options_at(ls, 0) is Some,
    ensures
        ({
            let start = options_at(ls, 0)->0;
            let end = section_end(ls, start + 1);
            let parts = freed_lines(ls, packages);
            let read = lines(unlines(parts));
            &&& 0 <= start < end <= ls.len()
            &&& read == parts.map_values(|l: Seq<char>| drop_cr(l))
            &&& options_at(read, 0) == Some(start)
            &&& section_end(read, start + 1) == end
        }),
{
    let parts = freed_lines(ls, packages);
    lemma_options_at(ls, 0);
    let start = options_at(ls, 0)->0;
    let end = section_end(ls, start + 1);
    lemma_section_end(ls, start + 1);
    assert forall|j: int| 0 <= j < parts.len() implies is_line(#[trigger] parts[j]) by {
        lemma_freed_line(ls[j], packages);
    }
    assert forall|j: int| 0 <= j < start implies !is_options(#[trigger] parts[j]) by {
        assert(parts[j] == ls[j]);
    }
    assert(parts[start] == ls[start]);
    lemma_options_at_is(parts, 0, start);
    assert forall|j: int| start + 1 <= j < end implies !is_header(#[trigger] parts[j]) by {
        lemma_freed_line(ls[j], packages);
        assert(!is_header(ls[j]));
    }
    if end < ls.len() {
        assert(parts[end] == ls[end]);
    }
    lemma_section_end_is(parts, start + 1, end);
    lemma_read_again(parts, start, end);
}

/// Once packages are let go, no line of the section holds any of them.
pub proof fn law_packages_are_let_go(
    content: Seq<char>,
    packages: Seq<Seq<char>>,
    package: Seq<char>,
)
    requires
        packages.contains(package),
    ensures
        is_free(freed_config(content, packages), package),
{
    let ls = lines(content);
    lemma_lines_are_lines(content);
    let parts = freed_lines(ls, packages);
    lemma_options_at(ls, 0);
    if options_at(ls, 0) is None {
        if ls.len() > 0 {
            lemma_lines_unlines(ls);
            let read = lines(unlines(ls));
            assert forall|j: int| 0 <= j < read.len() implies !is_options(#[trigger] read[j]) by {
                lemma_line_drop_cr(ls[j]);
                assert(!is_options(ls[j]));
            }
            lemma_options_at(read, 0);
        } else {
            lemma_only_feed();
        }
    } else {
        let start = options_at(ls, 0)->0;
        lemma_freed_lines(ls, packages);
        let read = lines(unlines(parts));
        assert forall|j: int|
            start < j < section_end(read, start + 1) && holds(#[trigger] read[j]) implies !words(
            held_by(read[j])->0,
        ).contains(package) by {
            lemma_line_drop_cr(parts[j]);
            lemma_freed_line(ls[j], packages);
            assert(parts[j] == freed_line(ls[j], packages));
            lemma_words_drop_cr(held_by(parts[j])->0);
            lemma_without(words(held_by(ls[j])->0), packages);
        }
    }
}

/// A configuration of nothing but a line feed has no section.
proof fn lemma_only_feed()
    ensures
        options_at(lines(unlines(Seq::<Seq<char>>::empty())), 0) is None,
{
    let s = unlines(Seq::<Seq<char>>::empty());
    assert(s =~= seq!['\n']);
    lemma_position_is(s, '\n', 0);
    assert(s.take(0) =~= seq![]);
    assert(s.skip(1) =~= seq![]);
    assert(lines(s.skip(1)) =~= seq![]);
    let read = lines(s);
    assert(read =~= seq![Seq::<char>::empty()]);
    lemma_empty_line();
    lemma_options_at(read, 0);
}

/// What holding has locked, letting go frees.
pub proof fn law_letting_go_undoes_holding(
    content: Seq<char>,
    packages: Seq<Seq<char>>,
    package: Seq<char>,
)
    requires
        are_names(packages),
        packages.contains(package),
    ensures
        is_held(held_config(content, packages), package),
        is_free(freed_config(held_config(content, packages), packages), package),
{
    law_packages_are_held(content, packages, package);
    law_packages_are_let_go(held_config(content, packages), packages, package);
}

/// Letting packages go keeps the others: a package that was held, and is not
/// among those that are let go, stays held.
pub proof fn law_letting_go_keeps_the_others(
    content: Seq<char>,
    packages: Seq<Seq<char>>,
    package: Seq<char>,
)
    requires
        is_held(content, package),
        !packages.contains(package),
    ensures
        is_held(freed_config(content, packages), package),
{
    let ls = lines(content);
    lemma_lines_are_lines(content);
    lemma_options_at(ls, 0);
    lemma_freed_lines(ls, packages);
    let start = options_at(ls, 0)->0;
    let end = section_end(ls, start + 1);
    let parts = freed_lines(ls, packages);
    let read = lines(unlines(parts));
    lemma_first_hold(ls, start + 1, end);
    let i = first_hold(ls, start + 1, end)->0;
    assert forall|j: int| start < j < end implies holds(#[trigger] read[j]) == holds(ls[j]) by {
        lemma_freed_line(ls[j], packages);
        assert(parts[j] == freed_line(ls[j], packages));
        lemma_line_drop_cr(parts[j]);
    }
    assert forall|j: int| start + 1 <= j < i implies !holds(#[trigger] read[j]) by {
        assert(!holds(ls[j]));
    }
    assert(holds(read[i]));
    lemma_first_hold_is(read, start + 1, i, end);
    lemma_freed_line(ls[i], packages);
    assert(parts[i] == freed_line(ls[i], packages));
    lemma_line_drop_cr(parts[i]);
    lemma_words_drop_cr(held_by(parts[i])->0);
    lemma_without(words(held_by(ls[i])->0), packages);
}


/// A line that was kept: as it was, or without the carriage return at its end.
pub open spec fn kept(old: Seq<char>, new: Seq<char>) -> bool {
    new == old || old == new.push('\r')
}

/// A line in square brackets, blanks around them aside.
pub open spec fn in_brackets(line: Seq<char>) -> bool {
    trim(line).len() > 0 && trim(line)[0] == '[' && trim(line).last() == ']'
}

/// The section begins at `s`, the first line that reads so.
pub open spec fn section_begins(ls: Seq<Seq<char>>, s: int) -> bool {
    &&& 0 <= s < ls.len()
    &&& trim(ls[s]) == "[options]"@
    &&& forall|j: int| 0 <= j < s ==> trim(#[trigger] ls[j]) != "[options]"@
}

/// Line `i` stands in the section that begins at `s`, or right behind it.
pub open spec fn in_section(ls: Seq<Seq<char>>, s: int, i: int) -> bool {
    s < i <= ls.len() && forall|j: int| s < j < i ==> !in_brackets(#[trigger] ls[j])
}

/// One line of the old ones, the first of the section that holds packages, is
/// another one now: it lists what it listed and, behind that, packages that it
/// did not list. All other lines are kept.
pub open spec fn hold_was_widened(
    old: Seq<Seq<char>>,
    new: Seq<Seq<char>>,
    packages: Seq<Seq<char>>,
    s: int,
    i: int,
    ws: Seq<Seq<char>>,
) -> bool {
    &&& new.len() == old.len()
    &&& i < old.len() && in_section(old, s, i) && !in_brackets(old[i])
    &&& holds(old[i]) && forall|j: int| s < j < i ==> !holds(#[trigger] old[j])
    &&& forall|j: int| 0 <= j < old.len() && j != i ==> kept(old[j], #[trigger] new[j])
    &&& new[i] == "IgnorePkg   = "@ + join(ws, " "@)
    &&& words(held_by(old[i])->0).len() <= ws.len()
    &&& ws.take(words(held_by(old[i])->0).len() as int) == words(held_by(old[i])->0)
    &&& forall|k: int|
        words(held_by(old[i])->0).len() <= k < ws.len() ==> packages.contains(#[trigger] ws[k])
            && !words(held_by(old[i])->0).contains(ws[k])
    &&& forall|p: Seq<char>| packages.contains(p) ==> ws.contains(p)
}

/// No line of the section holds packages, and a line that does so was put into
/// it at `i`: behind the last comment that shows such a line, or else behind the
/// header. All other lines are kept, in their order.
pub open spec fn hold_was_put_in(
    old: Seq<Seq<char>>,
    new: Seq<Seq<char>>,
    packages: Seq<Seq<char>>,
    s: int,
    i: int,
) -> bool {
    &&& new.len() == old.len() + 1
    &&& in_section(old, s, i)
    &&& forall|j: int| s < j < old.len() && in_section(old, s, j + 1) ==> !holds(#[trigger] old[j])
    &&& i == s + 1 || held_by(old[i - 1]) is Some
    &&& forall|j: int|
        i <= j < old.len() && in_section(old, s, j + 1) ==> held_by(#[trigger] old[j]) is None
    &&& forall|j: int| 0 <= j < i ==> kept(old[j], #[trigger] new[j])
    &&& forall|j: int| i < j < new.len() ==> kept(old[j - 1], #[trigger] new[j])
    &&& new[i] == "IgnorePkg   = "@ + join(packages, " "@)
}

/// The section begins at `s`, and its line `i` is what was changed or put in.
pub open spec fn hold_was_changed(
    old: Seq<Seq<char>>,
    new: Seq<Seq<char>>,
    packages: Seq<Seq<char>>,
    s: int,
    i: int,
) -> bool {
    &&& section_begins(old, s)
    &&& hold_was_put_in(old, new, packages, s, i) || exists|ws: Seq<Seq<char>>|
        #[trigger] hold_was_widened(old, new, packages, s, i, ws)
}

/// Behind the old lines stands the section now, after an empty line.
pub open spec fn section_was_appended(
    old: Seq<Seq<char>>,
    new: Seq<Seq<char>>,
    packages: Seq<Seq<char>>,
) -> bool {
    let n = old.len() as int;
    &&& new.len() == (if n == 0 {
        2
    } else {
        n + 3
    })
    &&& forall|j: int| 0 <= j < n ==> kept(old[j], #[trigger] new[j])
    &&& n > 0 ==> new[n] == Seq::<char>::empty()
    &&& new[new.len() - 2] == "[options]"@
    &&& new[new.len() - 1] == "IgnorePkg   = "@ + join(packages, " "@)
}

/// A new line goes behind the last line that shows one.
proof fn lemma_hold_place_is_last(ls: Seq<Seq<char>>, i: int, end: int, otherwise: int)
    requires
        0 <= i <= end <= ls.len(),
        otherwise <= i,
    ensures
        ({
            let p = hold_place(ls, i, end, otherwise);
            &&& p == otherwise || (i < p <= end && held_by(ls[p - 1]) is Some)
            &&& forall|j: int| i <= j < end && p <= j ==> held_by(#[trigger] ls[j]) is None
        }),
    decreases end - i,
{
    if i < end {
        if held_by(ls[i]) is Some {
            lemma_hold_place_is_last(ls, i + 1, end, i + 1);
        } else {
            lemma_hold_place_is_last(ls, i + 1, end, otherwise);
        }
    }
}

/// A header is a line in brackets.
proof fn lemma_header(line: Seq<char>)
    ensures
        is_header(line) == in_brackets(line),
{
    reveal_strlit("[");
    reveal_strlit("]");
    let t = trim(line);
    if t.len() > 0 {
        assert(t.subrange(0, 1) =~= seq![t[0]]);
        assert("["@ =~= seq!['[']);
        assert(t.subrange(t.len() - 1, t.len() as int) =~= seq![t.last()]);
        assert("]"@ =~= seq![']']);
        assert((t.subrange(0, 1) == "["@) == (t[0] == '[')) by {
            assert(t.subrange(0, 1)[0] == t[0]);
            assert("["@[0] == '[');
        }
        assert((t.subrange(t.len() - 1, t.len() as int) == "]"@) == (t.last() == ']')) by {
            assert(t.subrange(t.len() - 1, t.len() as int)[0] == t.last());
            assert("]"@[0] == ']');
        }
    }
}

/// Merging puts packages behind the words, and only such as are not among them.
proof fn lemma_merged_behind(ws: Seq<Seq<char>>, packages: Seq<Seq<char>>)
    ensures
        ws.len() <= merged(ws, packages).len(),
        merged(ws, packages).take(ws.len() as int) == ws,
        forall|k: int|
            ws.len() <= k < merged(ws, packages).len() ==> packages.contains(
                #[trigger] merged(ws, packages)[k],
            ) && !ws.contains(merged(ws, packages)[k]),
    decreases packages.len(),
{
    let m = merged(ws, packages);
    if packages.len() == 0 {
        assert(ws.take(ws.len() as int) =~= ws);
    } else {
        let front = packages.drop_last();
        lemma_merged_behind(ws, front);
        lemma_merged(ws, front);
        let done = merged(ws, front);
        assert(m.take(ws.len() as int) =~= done.take(ws.len() as int));
        assert forall|k: int| ws.len() <= k < m.len() implies packages.contains(#[trigger] m[k])
            && !ws.contains(m[k]) by {
            if k < done.len() {
                assert(m[k] == done[k]);
                let i = choose|i: int| 0 <= i < front.len() && front[i] == done[k];
                assert(packages[i] == done[k]);
            } else {
                assert(packages[packages.len() - 1] == m[k]);
                if ws.contains(m[k]) {
                    assert(done.contains(m[k]));
                }
            }
        }
    }
}

/// Holding packages keeps every other line of the configuration. Where the
/// section has a line that holds packages, that line is widened; where it has
/// none, one is put into the section; where there is no section, one is appended.
pub proof fn law_holding_keeps_the_other_lines(content: Seq<char>, packages: Seq<Seq<char>>)
    requires
        are_names(packages),
    ensures
        ({
            let old = lines(content);
            let new = lines(held_config(content, packages));
            if exists|s: int| section_begins(old, s) {
                exists|s: int, i: int| #[trigger] hold_was_changed(old, new, packages, s, i)
            } else {
                section_was_appended(old, new, packages)
            }
        }),
{
    let old = lines(content);
    let parts = held_lines(old, packages);
    let new = lines(held_config(content, packages));
    lemma_lines_are_lines(content);
    let (start, i, end, all) = lemma_held_lines(old, packages);
    lemma_read_again(parts, start, end);
    lemma_options_at(old, 0);
    lemma_hold_line(join(all, " "@));
    lemma_list_read_again(all);
    lemma_empty_line();
    assert forall|j: int| 0 <= j < parts.len() implies kept(#[trigger] parts[j], new[j]) by {
        lemma_dropped_cr(parts[j]);
    }
    assert(new[i] == parts[i]);
    match options_at(old, 0) {
        Some(s) => {
            let e = section_end(old, s + 1);
            lemma_section_end(old, s + 1);
            lemma_first_hold(old, s + 1, e);
            assert forall|j: int| 0 <= j < old.len() implies is_header(#[trigger] old[j])
                == in_brackets(old[j]) by {
                lemma_header(old[j]);
            }
            assert(section_begins(old, s)) by {
                assert forall|j: int| 0 <= j < s implies trim(#[trigger] old[j])
                    != "[options]"@ by {
                    assert(!is_options(old[j]));
                }
            }
            assert(is_options(old[s]));
            match first_hold(old, s + 1, e) {
                Some(k) => {
                    let ws = words(held_by(old[k])->0);
                    let m = merged(ws, packages);
                    lemma_merged_behind(ws, packages);
                    lemma_merged(ws, packages);
                    lemma_words_are_words(held_by(old[k])->0);
                    lemma_list_read_again(m);
                    lemma_hold_line(join(m, " "@));
                    assert(parts[k] == hold_line(join(m, " "@)));
                    lemma_dropped_cr(parts[k]);
                    assert(new[k] == parts[k]);
                    assert forall|j: int| 0 <= j < old.len() && j != k implies kept(
                        old[j],
                        #[trigger] new[j],
                    ) by {
                        assert(parts[j] == old[j]);
                    }
                    assert(hold_was_widened(old, new, packages, s, k, m));
                    assert(hold_was_changed(old, new, packages, s, k));
                },
                None => {
                    let at = hold_place(old, s + 1, e, s + 1);
                    lemma_hold_place(old, s + 1, e, s + 1, s + 1);
                    lemma_list_read_again(packages);
                    lemma_hold_line(join(packages, " "@));
                    assert(parts[at] == hold_line(join(packages, " "@)));
                    lemma_dropped_cr(parts[at]);
                    assert(new[at] == parts[at]);
                    assert forall|j: int| 0 <= j < at implies kept(old[j], #[trigger] new[j]) by {
                        assert(parts[j] == old[j]);
                    }
                    assert forall|j: int| at < j < new.len() implies kept(
                        old[j - 1],
                        #[trigger] new[j],
                    ) by {
                        assert(parts[j] == old[j - 1]);
                    }
                    assert forall|j: int|
                        s < j < old.len() && in_section(old, s, j + 1) implies !holds(
                        #[trigger] old[j],
                    ) by {
                        if j >= e {
                            assert(in_brackets(old[e]));
                        }
                    }
                    lemma_hold_place_is_last(old, s + 1, e, s + 1);
                    assert forall|j: int|
                        at <= j < old.len() && in_section(old, s, j + 1) implies held_by(
                        #[trigger] old[j],
                    ) is None by {
                        if j >= e {
                            assert(in_brackets(old[e]));
                        }
                    }
                    assert(hold_was_put_in(old, new, packages, s, at));
                    assert(hold_was_changed(old, new, packages, s, at));
                },
            }
        },
        None => {
            assert forall|j: int| 0 <= j < old.len() implies trim(#[trigger] old[j])
                != "[options]"@ by {
                assert(!is_options(old[j]));
            }
            assert forall|s: int| !section_begins(old, s) by {}
            let n = old.len() as int;
            assert forall|j: int| 0 <= j < n implies kept(old[j], #[trigger] new[j]) by {
                assert(parts[j] == old[j]);
            }
            lemma_list_read_again(packages);
            lemma_hold_line(join(packages, " "@));
            if n > 0 {
                lemma_dropped_cr(parts[n]);
            }
            lemma_dropped_cr(parts[parts.len() - 2]);
            lemma_dropped_cr(parts[parts.len() - 1]);
            assert(section_was_appended(old, new, packages));
        },
    }
}

/// A line without the carriage return at its end was kept.
proof fn lemma_dropped_cr(line: Seq<char>)
    ensures
        kept(line, drop_cr(line)),
        line.len() == 0 || line.last() != '\r' ==> drop_cr(line) == line,
{
    if line.len() > 0 && line.last() == '\r' {
        assert(line =~= drop_cr(line).push('\r'));
    }
}

/// A line that sets the key holds packages.
proof fn lemma_hold_line_holds(a: Seq<char>, b: Seq<char>, value: Seq<char>)
    requires
        is_blank(a),
        is_blank(b),
    ensures
        holds((a + "IgnorePkg"@ + b).push('=') + value),
        held_by((a + "IgnorePkg"@ + b).push('=') + value) == Some(value),
{
    reveal_strlit("IgnorePkg");
    reveal_strlit("#");
    let key = "IgnorePkg"@;
    let e = Seq::<char>::empty();
    let s = (a + key + b).push('=') + value;
    let rest = (key + b).push('=') + value;
    assert(s =~= a + rest);
    assert(rest[0] == 'I');
    lemma_blanks_dropped(a, rest);
    assert(!begins(rest, "#"@)) by {
        assert(rest.subrange(0, 1)[0] == 'I');
        assert("#"@[0] == '#');
    }
    assert(!(key + b).contains('=')) by {
        if (key + b).contains('=') {
            let i = choose|i: int| 0 <= i < (key + b).len() && (key + b)[i] == '=';
            if i >= key.len() {
                assert(is_space(b[i - key.len()]));
            }
        }
    }
    law_a_text_is_cut_at_the_first(key + b, '=', value);
    law_blanks_around_are_trimmed(e, key, b);
    assert(e + key + b =~= key + b);
}

/// A comment that shows a line with the key shows what it would hold.
proof fn lemma_example_shows(a: Seq<char>, b: Seq<char>, value: Seq<char>)
    requires
        is_blank(a),
        is_blank(b),
    ensures
        held_by(a + "#"@ + ((b + "IgnorePkg"@ + b).push('=') + value)) == Some(value),
{
    let inner = (b + "IgnorePkg"@ + b).push('=') + value;
    let rest = ("IgnorePkg"@ + b).push('=') + value;
    let e = Seq::<char>::empty();
    lemma_hold_line_holds(e, b, value);
    assert((e + "IgnorePkg"@ + b).push('=') + value =~= rest);
    reveal_strlit("IgnorePkg");
    reveal_strlit("#");
    assert(rest[0] == 'I');
    assert(inner =~= b + rest);
    let c = "#"@ + inner;
    let s = a + "#"@ + inner;
    assert(s =~= a + c);
    assert(c[0] == '#');
    lemma_blanks_dropped(a, c);
    assert(c.subrange(0, 1) =~= "#"@);
    assert(drop_front(c, Class::One('#')) == inner) by {
        assert(c.drop_first() =~= inner);
        if b.len() > 0 {
            assert(inner[0] == b[0]);
            assert(is_space(b[0]));
        } else {
            assert(inner[0] == rest[0]);
        }
        assert(inner[0] != '#');
        assert(drop_front(inner, Class::One('#')) == inner);
    }
    lemma_blanks_dropped(b, rest);
    lemma_blanks_dropped(e, rest);
    assert(e + rest =~= rest);
    assert(uncommented(s) == rest);
    assert(uncommented(rest) == rest) by {
        assert(rest.subrange(0, 1)[0] == 'I');
    }
}

/// What trimming leaves of a text that begins with no blank is its beginning.
proof fn lemma_trimmed_beginning(s: Seq<char>)
    requires
        s.len() > 0 ==> !is_space(s[0]),
    ensures
        trim(s).len() <= s.len(),
        s == trim(s) + s.skip(trim(s).len() as int),
        is_blank(s.skip(trim(s).len() as int)),
{
    law_trimming_takes_the_ends_off(s);
    let (i, j) = choose|i: int, j: int|
        #[trigger] encloses(s, Class::Space, i, j) && trim(s) == s.subrange(i, j);
    assert(i == 0 || i == j) by {
        if i > 0 {
            assert(in_class(Class::Space, s[0]));
        }
    }
    if i > 0 {
        assert(in_class(Class::Space, s[0]));
    }
    assert(i == 0);
    let y = s.skip(j);
    assert forall|k: int| 0 <= k < y.len() implies is_space(#[trigger] y[k]) by {
        assert(in_class(Class::Space, s[j + k]));
    }
    assert(s =~= s.subrange(0, j) + y);
}

/// A line that sets the key to this value, with these blanks around the key.
pub open spec fn hold_text(x: Seq<char>, y: Seq<char>, value: Seq<char>) -> Seq<char> {
    (x + "IgnorePkg"@ + y).push('=') + value
}

/// A line that holds packages sets the key.
proof fn lemma_holding_line_sets_key(line: Seq<char>)
    requires
        holds(line),
    ensures
        exists|x: Seq<char>, y: Seq<char>|
            is_blank(x) && is_blank(y) && line == #[trigger] hold_text(x, y, held_by(line)->0),
{
    let t = drop_front(line, Class::Space);
    assert(uncommented(line) == t);
    let (left, value) = cut(t, '=')->0;
    let x = line.take(line.len() - t.len());
    lemma_front_and_rest(line);
    lemma_cut_parts(t, '=');
    lemma_trimmed_beginning(left);
    let y = left.skip(trim(left).len() as int);
    lemma_hold_text_parts(x, y, value);
    assert(held_by(line) == Some(value));
    assert(trim(left) == "IgnorePkg"@);
    assert(t == ("IgnorePkg"@ + y).push('=') + value);
    assert(line == hold_text(x, y, held_by(line)->0));
}

/// A line is its first blanks and what stands behind them.
proof fn lemma_front_and_rest(line: Seq<char>)
    ensures
        ({
            let t = drop_front(line, Class::Space);
            let x = line.take(line.len() - t.len());
            is_blank(x) && line == x + t && (t.len() > 0 ==> !is_space(t[0]))
        }),
{
    law_the_front_is_dropped(line, Class::Space);
    let t = drop_front(line, Class::Space);
    let x = line.take(line.len() - t.len());
    assert forall|k: int| 0 <= k < x.len() implies is_space(#[trigger] x[k]) by {
        assert(in_class(Class::Space, line[k]));
    }
    assert(line =~= x + t);
}

proof fn lemma_hold_text_parts(x: Seq<char>, y: Seq<char>, value: Seq<char>)
    ensures
        hold_text(x, y, value) == x + (("IgnorePkg"@ + y).push('=') + value),
{
    assert(hold_text(x, y, value) =~= x + (("IgnorePkg"@ + y).push('=') + value));
}

/// A line holds packages where it sets `IgnorePkg`, blanks around the key aside,
/// and is no comment: what follows the first equals sign lists them. A comment
/// that shows such a line holds nothing. No other line does.
pub proof fn law_a_hold_line_sets_its_key(
    a: Seq<char>,
    b: Seq<char>,
    value: Seq<char>,
    line: Seq<char>,
)
    requires
        is_blank(a),
        is_blank(b),
    ensures
        holds(hold_text(a, b, value)),
        held_by(hold_text(a, b, value)) == Some(value),
        !holds(a + "#"@ + line),
        held_by(a + "#"@ + hold_text(b, b, value)) == Some(value),
        holds(line) ==> exists|x: Seq<char>, y: Seq<char>|
            is_blank(x) && is_blank(y) && line == #[trigger] hold_text(x, y, held_by(line)->0),
{
    lemma_hold_line_holds(a, b, value);
    lemma_example_shows(a, b, value);
    if holds(line) {
        lemma_holding_line_sets_key(line);
    }
    assert(!holds(a + "#"@ + line)) by {
        reveal_strlit("#");
        let c = "#"@ + line;
        assert(a + "#"@ + line =~= a + c);
        assert(c[0] == '#');
        lemma_blanks_dropped(a, c);
        assert(c.subrange(0, 1) =~= "#"@);
    }
}

/// Blanks in front of a text that begins with none are what is dropped.
proof fn lemma_blanks_dropped(a: Seq<char>, s: Seq<char>)
    requires
        is_blank(a),
        s.len() > 0,
        !is_space(s[0]),
    ensures
        drop_front(a + s, Class::Space) == s,
{
    let t = a + s;
    law_the_front_is_dropped(t, Class::Space);
    let n = t.len() - drop_front(t, Class::Space).len();
    assert(t[a.len() as int] == s[0]);
    assert(n == a.len()) by {
        if n > a.len() {
            assert(in_class(Class::Space, t[a.len() as int]));
        } else if n < a.len() {
            assert(t[n] == a[n]);
        }
    }
    assert(t.skip(n) =~= s);
}

/// Letting packages go keeps every line: the lines of the section that hold
/// packages list what they listed, in order, without those that are let go, and
/// all other lines are kept.
pub proof fn law_letting_go_keeps_the_other_lines(content: Seq<char>, packages: Seq<Seq<char>>)
    requires
        lines(content).len() > 0,
    ensures
        ({
            let old = lines(content);
            let new = lines(freed_config(content, packages));
            &&& new.len() == old.len()
            &&& forall|s: int, j: int|
                #![trigger in_section(old, s, j), new[j]]
                section_begins(old, s) && in_section(old, s, j) && j < old.len() && !in_brackets(
                    old[j],
                ) && holds(old[j]) ==> holds(new[j]) && words(held_by(new[j])->0) == words(
                    held_by(old[j])->0,
                ).filter(|w: Seq<char>| !packages.contains(w))
            &&& forall|j: int|
                0 <= j < old.len() && !holds(#[trigger] old[j]) ==> kept(old[j], new[j])
            &&& forall|s: int, j: int|
                #![trigger section_begins(old, s), new[j]]
                section_begins(old, s) && 0 <= j < old.len() && (j <= s || !in_section(
                    old,
                    s,
                    j + 1,
                )) ==> kept(old[j], new[j])
            &&& (forall|s: int| !section_begins(old, s)) ==> forall|j: int|
                0 <= j < old.len() ==> kept(old[j], #[trigger] new[j])
        }),
{
    let old = lines(content);
    let parts = freed_lines(old, packages);
    let new = lines(freed_config(content, packages));
    lemma_lines_are_lines(content);
    lemma_options_at(old, 0);
    assert forall|j: int| 0 <= j < parts.len() implies is_line(#[trigger] parts[j]) by {
        lemma_freed_line(old[j], packages);
    }
    lemma_lines_unlines(parts);
    assert forall|j: int| 0 <= j < old.len() implies kept(#[trigger] parts[j], new[j]) by {
        lemma_dropped_cr(parts[j]);
    }
    assert forall|j: int| 0 <= j < old.len() && !holds(#[trigger] old[j]) implies kept(
        old[j],
        new[j],
    ) by {
        assert(parts[j] == old[j]);
    }
    match options_at(old, 0) {
        Some(start) => {
            let end = section_end(old, start + 1);
            lemma_section_end(old, start + 1);
            assert forall|j: int| 0 <= j < old.len() implies is_header(#[trigger] old[j])
                == in_brackets(old[j]) by {
                lemma_header(old[j]);
            }
            assert(is_options(old[start]));
            assert forall|s: int| #[trigger] section_begins(old, s) implies s == start by {
                if s < start {
                    assert(!is_options(old[s]));
                } else if start < s {
                    assert(trim(old[start]) != "[options]"@);
                }
            }
            assert forall|s: int, j: int|
                #![trigger in_section(old, s, j), new[j]]
                section_begins(old, s) && in_section(old, s, j) && j < old.len() && !in_brackets(
                    old[j],
                ) && holds(old[j]) implies holds(new[j]) && words(held_by(new[j])->0) == words(
                held_by(old[j])->0,
            ).filter(|w: Seq<char>| !packages.contains(w)) by {
                assert(j < end) by {
                    if end <= j {
                        if end < j {
                            assert(in_brackets(old[end]));
                        }
                    }
                }
                assert(parts[j] == freed_line(old[j], packages));
                lemma_freed_line(old[j], packages);
                lemma_line_drop_cr(parts[j]);
                lemma_words_drop_cr(held_by(parts[j])->0);
                lemma_without_is_filter(words(held_by(old[j])->0), packages);
            }
            assert forall|s: int, j: int|
                #![trigger section_begins(old, s), new[j]]
                section_begins(old, s) && 0 <= j < old.len() && (j <= s || !in_section(
                    old,
                    s,
                    j + 1,
                )) implies kept(old[j], new[j]) by {
                if start < j && j < end {
                    assert(in_section(old, start, j + 1));
                }
                assert(parts[j] == old[j]);
            }
            assert(section_begins(old, start)) by {
                assert forall|j: int| 0 <= j < start implies trim(#[trigger] old[j])
                    != "[options]"@ by {
                    assert(!is_options(old[j]));
                }
            }
        },
        None => {
            assert forall|s: int| !section_begins(old, s) by {
                if 0 <= s < old.len() {
                    assert(!is_options(old[s]));
                }
            }
            assert forall|j: int| 0 <= j < old.len() implies kept(old[j], #[trigger] new[j]) by {
                assert(parts[j] == old[j]);
            }
        },
    }
}

/// Taking packages out of a list leaves the rest in order.
proof fn lemma_without_is_filter(ws: Seq<Seq<char>>, packages: Seq<Seq<char>>)
    ensures
        without(ws, packages) == ws.filter(|w: Seq<char>| !packages.contains(w)),
    decreases ws.len(),
{
    reveal(Seq::filter);
    let f = |w: Seq<char>| !packages.contains(w);
    if ws.len() > 0 {
        lemma_without_is_filter(ws.drop_last(), packages);
    } else {
        assert(without(ws, packages) =~= ws.filter(f));
    }
}

/// The whole family of PipeWire is held, and nothing else.
pub proof fn law_the_pipewire_family_is_held(p: Seq<char>)
    ensures
        lock_packages().len() == 10,
        lock_packages().contains(p) <==> p == "libpipewire"@ || p == "pipewire"@ || p
            == "pipewire-alsa"@ || p == "pipewire-audio"@ || p == "pipewire-jack"@ || p
            == "pipewire-pulse"@ || p == "pipewire-v4l2"@ || p == "pipewire-zeroconf"@ || p
            == "gst-plugin-pipewire"@ || p == "wireplumber"@,
{
    let all = lock_packages();
    assert(all[0] == "libpipewire"@ && all[1] == "pipewire"@ && all[2] == "pipewire-alsa"@);
    assert(all[3] == "pipewire-audio"@ && all[4] == "pipewire-jack"@ && all[5]
        == "pipewire-pulse"@);
    assert(all[6] == "pipewire-v4l2"@ && all[7] == "pipewire-zeroconf"@);
    assert(all[8] == "gst-plugin-pipewire"@ && all[9] == "wireplumber"@);
}

} // verus!

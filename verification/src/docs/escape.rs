//! Escaping text for Typst.

use vstd::prelude::*;

use crate::text::chars_of;

verus! {

// ---------------------------------------------------------------------------
// Markup
// ---------------------------------------------------------------------------

/// A character that means something in Typst markup.
pub open spec fn is_special(c: char) -> bool {
    ||| c == '\\'
    ||| c == '*'
    ||| c == '_'
    ||| c == '`'
    ||| c == '$'
    ||| c == '#'
    ||| c == '<'
    ||| c == '>'
    ||| c == '@'
    ||| c == '~'
    ||| c == '['
    ||| c == ']'
}

/// `c` as it is written in markup.
pub open spec fn markup_char(c: char) -> Seq<char> {
    if is_special(c) {
        seq!['\\', c]
    } else {
        seq![c]
    }
}

/// `s` as it is written in markup.
pub open spec fn markup(s: Seq<char>) -> Seq<char>
    decreases s.len(),
{
    if s.len() == 0 {
        seq![]
    } else {
        markup(s.drop_last()) + markup_char(s.last())
    }
}

/// Escapes a run of text for Typst markup.
pub fn esc_markup(s: &str) -> (o: String)
    ensures
        o@ == markup(s@),
{
    let v = chars_of(s);
    let mut o = String::new();
    let mut i: usize = 0;
    assert(v@.take(0) =~= seq![]);
    while i < v.len()
        invariant
            i <= v.len(),
            v@ == s@,
            o@ == markup(v@.take(i as int)),
        decreases v.len() - i,
    {
        let c: char = v[i];
        let ghost before = o@;
        if c == '\\' || c == '*' || c == '_' || c == '`' || c == '$' || c == '#' || c == '<' || c
            == '>' || c == '@' || c == '~' || c == '[' || c == ']' {
            o.push('\\');
            o.push(c);
        } else {
            o.push(c);
        }
        assert(o@ =~= before + markup_char(c));
        assert(v@.take(i + 1).drop_last() =~= v@.take(i as int));
        i = i + 1;
    }
    assert(v@.take(i as int) =~= s@);
    o
}

// ---------------------------------------------------------------------------
// String literals
// ---------------------------------------------------------------------------

/// `c` as it is written in a string literal; a carriage return is left out.
pub open spec fn literal_char(c: char) -> Seq<char> {
    if c == '\\' {
        seq!['\\', '\\']
    } else if c == '"' {
        seq!['\\', '"']
    } else if c == '\n' {
        seq!['\\', 'n']
    } else if c == '\t' {
        seq!['\\', 't']
    } else if c == '\r' {
        seq![]
    } else {
        seq![c]
    }
}

/// `s` as it is written between the quotes of a string literal.
pub open spec fn literal(s: Seq<char>) -> Seq<char>
    decreases s.len(),
{
    if s.len() == 0 {
        seq![]
    } else {
        literal(s.drop_last()) + literal_char(s.last())
    }
}

/// Escapes a string for a Typst string literal.
pub fn esc_string(s: &str) -> (o: String)
    ensures
        o@ == literal(s@),
{
    let v = chars_of(s);
    let mut o = String::new();
    let mut i: usize = 0;
    assert(v@.take(0) =~= seq![]);
    while i < v.len()
        invariant
            i <= v.len(),
            v@ == s@,
            o@ == literal(v@.take(i as int)),
        decreases v.len() - i,
    {
        let c: char = v[i];
        let ghost before = o@;
        if c == '\\' {
            o.push('\\');
            o.push('\\');
        } else if c == '"' {
            o.push('\\');
            o.push('"');
        } else if c == '\n' {
            o.push('\\');
            o.push('n');
        } else if c == '\t' {
            o.push('\\');
            o.push('t');
        } else if c != '\r' {
            o.push(c);
        }
        assert(o@ =~= before + literal_char(c));
        assert(v@.take(i + 1).drop_last() =~= v@.take(i as int));
        i = i + 1;
    }
    assert(v@.take(i as int) =~= s@);
    o
}

// ---------------------------------------------------------------------------
// Laws
// ---------------------------------------------------------------------------

/// What markup shows: a backslash stands for the character behind it.
pub open spec fn shown(t: Seq<char>) -> Seq<char>
    decreases t.len(),
{
    if t.len() == 0 {
        seq![]
    } else if t[0] == '\\' && t.len() > 1 {
        seq![t[1]] + shown(t.skip(2))
    } else {
        seq![t[0]] + shown(t.skip(1))
    }
}

/// Whether no special character of `t` stands without a backslash before it.
pub open spec fn inert(t: Seq<char>) -> bool
    decreases t.len(),
{
    if t.len() == 0 {
        true
    } else if t[0] == '\\' {
        t.len() > 1 && inert(t.skip(2))
    } else {
        !is_special(t[0]) && inert(t.skip(1))
    }
}

proof fn lemma_markup_front(s: Seq<char>)
    requires
        s.len() > 0,
    ensures
        markup(s) == markup_char(s[0]) + markup(s.drop_first()),
    decreases s.len(),
{
    if s.len() == 1 {
        assert(s.drop_last() =~= seq![]);
        assert(s.drop_first() =~= seq![]);
        assert(markup(s) =~= markup_char(s[0]) + markup(s.drop_first()));
    } else {
        lemma_markup_front(s.drop_last());
        assert(s.drop_last().drop_first() =~= s.drop_first().drop_last());
        assert(markup(s) =~= markup_char(s[0]) + markup(s.drop_first()));
    }
}

/// Escaped markup shows the text it was made from, and none of its characters
/// means anything to Typst.
pub proof fn law_markup_shows_the_text(s: Seq<char>)
    ensures
        shown(markup(s)) == s,
        inert(markup(s)),
    decreases s.len(),
{
    if s.len() > 0 {
        lemma_markup_front(s);
        law_markup_shows_the_text(s.drop_first());
        let t = markup(s);
        if is_special(s[0]) {
            assert(t.skip(2) =~= markup(s.drop_first()));
        } else {
            assert(t.skip(1) =~= markup(s.drop_first()));
        }
        assert(shown(t) =~= s);
    }
}

/// What a string literal with the text `t` between its quotes denotes.
pub open spec fn denoted(t: Seq<char>) -> Seq<char>
    decreases t.len(),
{
    if t.len() == 0 {
        seq![]
    } else if t[0] == '\\' && t.len() > 1 {
        seq![
            if t[1] == 'n' {
                '\n'
            } else if t[1] == 't' {
                '\t'
            } else {
                t[1]
            },
        ] + denoted(t.skip(2))
    } else {
        seq![t[0]] + denoted(t.skip(1))
    }
}

/// Where the string literal whose text begins `t` is closed.
pub open spec fn closing_quote(t: Seq<char>) -> Option<int>
    decreases t.len(),
{
    if t.len() == 0 {
        None
    } else if t[0] == '"' {
        Some(0)
    } else {
        let n: int = if t[0] == '\\' && t.len() > 1 {
            2
        } else {
            1
        };
        match closing_quote(t.skip(n)) {
            Some(i) => Some(n + i),
            None => None,
        }
    }
}

/// `s` without its carriage returns.
pub open spec fn without_cr(s: Seq<char>) -> Seq<char>
    decreases s.len(),
{
    if s.len() == 0 {
        seq![]
    } else if s[0] == '\r' {
        without_cr(s.drop_first())
    } else {
        seq![s[0]] + without_cr(s.drop_first())
    }
}

proof fn lemma_literal_front(s: Seq<char>)
    requires
        s.len() > 0,
    ensures
        literal(s) == literal_char(s[0]) + literal(s.drop_first()),
    decreases s.len(),
{
    if s.len() == 1 {
        assert(s.drop_last() =~= seq![]);
        assert(s.drop_first() =~= seq![]);
        assert(literal(s) =~= literal_char(s[0]) + literal(s.drop_first()));
    } else {
        lemma_literal_front(s.drop_last());
        assert(s.drop_last().drop_first() =~= s.drop_first().drop_last());
        assert(literal(s) =~= literal_char(s[0]) + literal(s.drop_first()));
    }
}

/// An escaped string literal denotes the text it was made from, but for its
/// carriage returns.
pub proof fn law_literal_denotes_the_text(s: Seq<char>)
    ensures
        denoted(literal(s)) == without_cr(s),
    decreases s.len(),
{
    if s.len() > 0 {
        lemma_literal_front(s);
        law_literal_denotes_the_text(s.drop_first());
        let t = literal(s);
        let n = literal_char(s[0]).len() as int;
        assert(t.skip(n) =~= literal(s.drop_first()));
        assert(denoted(t) =~= without_cr(s));
    }
}

/// Nothing in an escaped string closes its literal: the first quote that does
/// is the one behind it.
pub proof fn law_literal_stays_closed(s: Seq<char>, rest: Seq<char>)
    ensures
        closing_quote(literal(s) + seq!['"'] + rest) == Some(literal(s).len() as int),
    decreases s.len(),
{
    let t = literal(s) + seq!['"'] + rest;
    if s.len() > 0 {
        lemma_literal_front(s);
        law_literal_stays_closed(s.drop_first(), rest);
        let n = literal_char(s[0]).len() as int;
        assert(t.skip(n) =~= literal(s.drop_first()) + seq!['"'] + rest);
    } else {
        assert(t[0] == '"');
    }
}

/// Escaping goes piece by piece: two texts that are escaped and joined are the
/// joined text, escaped.
pub proof fn law_escaping_joins(a: Seq<char>, b: Seq<char>)
    ensures
        markup(a + b) == markup(a) + markup(b),
        literal(a + b) == literal(a) + literal(b),
    decreases b.len(),
{
    if b.len() == 0 {
        assert(a + b =~= a);
        assert(markup(a) + markup(b) =~= markup(a));
        assert(literal(a) + literal(b) =~= literal(a));
    } else {
        law_escaping_joins(a, b.drop_last());
        assert((a + b).drop_last() =~= a + b.drop_last());
        assert(markup(a + b) =~= markup(a) + markup(b));
        assert(literal(a + b) =~= literal(a) + literal(b));
    }
}

/// In markup a backslash is put before each character that means something to
/// Typst, and before no other.
pub proof fn law_special_characters_are_escaped(c: char)
    ensures
        c == '\\' || c == '*' || c == '_' || c == '`' || c == '$' || c == '#' || c == '<' || c
            == '>' || c == '@' || c == '~' || c == '[' || c == ']' ==> markup(seq![c]) == seq![
            '\\',
            c,
        ],
        !(c == '\\' || c == '*' || c == '_' || c == '`' || c == '$' || c == '#' || c == '<' || c
            == '>' || c == '@' || c == '~' || c == '[' || c == ']') ==> markup(seq![c]) == seq![c],
        markup(Seq::<char>::empty()) == Seq::<char>::empty(),
{
    reveal_with_fuel(markup, 2);
    assert(seq![c].drop_last() =~= seq![]);
    assert(markup(seq![c]) =~= markup_char(c));
}

/// In a string literal quotes and backslashes are escaped, line feeds and
/// tabulators are written by their letters, carriage returns are left out, and
/// all else stays.
pub proof fn law_literals_are_escaped(c: char)
    ensures
        literal(seq!['\\']) == seq!['\\', '\\'],
        literal(seq!['"']) == seq!['\\', '"'],
        literal(seq!['\n']) == seq!['\\', 'n'],
        literal(seq!['\t']) == seq!['\\', 't'],
        literal(seq!['\r']) == Seq::<char>::empty(),
        c != '\\' && c != '"' && c != '\n' && c != '\t' && c != '\r' ==> literal(seq![c])
            == seq![c],
        literal(Seq::<char>::empty()) == Seq::<char>::empty(),
{
    lemma_literal_of_one('\\');
    lemma_literal_of_one('"');
    lemma_literal_of_one('\n');
    lemma_literal_of_one('\t');
    lemma_literal_of_one('\r');
    lemma_literal_of_one(c);
}

proof fn lemma_literal_of_one(c: char)
    ensures
        literal(seq![c]) == literal_char(c),
{
    reveal_with_fuel(literal, 2);
    assert(seq![c].drop_last() =~= seq![]);
    assert(literal(seq![c]) =~= literal_char(c));
}

} // verus!

//! Text as sequences of characters.
//!
//! Every function here says what it computes over `Seq<char>`, the view of
//! `str` and `String`, so that the modules above can state their own contracts
//! without speaking of bytes or iterators.

use vstd::prelude::*;

verus! {

// ---------------------------------------------------------------------------
// Building strings
// ---------------------------------------------------------------------------

/// `String::push` appends one character at the end.
pub assume_specification[ String::push ](s: &mut String, c: char)
    ensures
        final(s)@ == old(s)@.push(c),
;

/// The views of a sequence of strings.
pub open spec fn texts(v: Seq<String>) -> Seq<Seq<char>> {
    Seq::new(v.len(), |i: int| v[i]@)
}

/// The views of pairs of texts.
pub open spec fn pairs(v: Seq<(String, String)>) -> Seq<(Seq<char>, Seq<char>)> {
    Seq::new(v.len(), |i: int| (v[i].0@, v[i].1@))
}

/// The view of an optional string.
pub open spec fn opt_text(o: Option<String>) -> Option<Seq<char>> {
    match o {
        Some(s) => Some(s@),
        None => None,
    }
}

/// The characters of `s`, for access by index.
pub fn chars_of(s: &str) -> (v: Vec<char>)
    ensures
        v@ == s@,
{
    let mut v: Vec<char> = Vec::new();
    for c in it: s.chars()
        invariant
            v@ == it.seq().take(it.index()),
            it.seq() == s@,
    {
        v.push(c);
    }
    v
}

/// The characters `from .. to` of `v` as a string.
pub fn text_of(v: &Vec<char>, from: usize, to: usize) -> (s: String)
    requires
        from <= to <= v.len(),
    ensures
        s@ == v@.subrange(from as int, to as int),
{
    let mut s = String::new();
    let mut i: usize = from;
    while i < to
        invariant
            from <= i <= to <= v.len(),
            s@ == v@.subrange(from as int, i as int),
        decreases to - i,
    {
        s.push(v[i]);
        i = i + 1;
        assert(v@.subrange(from as int, i as int) =~= v@.subrange(from as int, i - 1).push(
            v@[i - 1],
        ));
    }
    s
}


// ---------------------------------------------------------------------------
// Character classes
// ---------------------------------------------------------------------------

/// The Unicode `White_Space` property.
pub open spec fn is_space(c: char) -> bool {
    ||| '\u{9}' <= c <= '\u{d}'
    ||| c == ' '
    ||| c == '\u{85}'
    ||| c == '\u{a0}'
    ||| c == '\u{1680}'
    ||| '\u{2000}' <= c <= '\u{200a}'
    ||| c == '\u{2028}'
    ||| c == '\u{2029}'
    ||| c == '\u{202f}'
    ||| c == '\u{205f}'
    ||| c == '\u{3000}'
}

/// Whether `c` is white space.
pub fn space(c: char) -> (r: bool)
    ensures
        r == is_space(c),
{
    ('\u{9}' <= c && c <= '\u{d}') || c == ' ' || c == '\u{85}' || c == '\u{a0}' || c == '\u{1680}'
        || ('\u{2000}' <= c && c <= '\u{200a}') || c == '\u{2028}' || c == '\u{2029}'
        || c == '\u{202f}' || c == '\u{205f}' || c == '\u{3000}'
}

/// A set of characters that a trim removes.
#[derive(Clone, Copy)]
pub enum Class {
    /// White space.
    Space,
    /// One character.
    One(char),
    /// Either of two characters.
    Two(char, char),
}

/// Whether `c` belongs to `k`.
pub open spec fn in_class(k: Class, c: char) -> bool {
    match k {
        Class::Space => is_space(c),
        Class::One(a) => c == a,
        Class::Two(a, b) => c == a || c == b,
    }
}

/// Whether `c` belongs to `k`.
pub fn class_has(k: Class, c: char) -> (r: bool)
    ensures
        r == in_class(k, c),
{
    match k {
        Class::Space => space(c),
        Class::One(a) => c == a,
        Class::Two(a, b) => c == a || c == b,
    }
}

/// `s` without the characters of `k` at its front.
pub open spec fn drop_front(s: Seq<char>, k: Class) -> Seq<char>
    decreases s.len(),
{
    if s.len() > 0 && in_class(k, s[0]) {
        drop_front(s.drop_first(), k)
    } else {
        s
    }
}

/// `s` without the characters of `k` at its back.
pub open spec fn drop_back(s: Seq<char>, k: Class) -> Seq<char>
    decreases s.len(),
{
    if s.len() > 0 && in_class(k, s.last()) {
        drop_back(s.drop_last(), k)
    } else {
        s
    }
}

/// `s` without the characters of `k` at either end.
pub open spec fn strip(s: Seq<char>, k: Class) -> Seq<char> {
    drop_back(drop_front(s, k), k)
}

/// `s` without white space at either end.
pub open spec fn trim(s: Seq<char>) -> Seq<char> {
    strip(s, Class::Space)
}

/// How many characters of `k` stand at the front of `v[from..to]`, as the index behind them.
fn front_end(v: &Vec<char>, from: usize, to: usize, k: Class) -> (r: usize)
    requires
        from <= to <= v.len(),
    ensures
        from <= r <= to,
        v@.subrange(r as int, to as int) == drop_front(v@.subrange(from as int, to as int), k),
{
    let mut i: usize = from;
    while i < to && class_has(k, v[i])
        invariant
            from <= i <= to <= v.len(),
            drop_front(v@.subrange(i as int, to as int), k) == drop_front(
                v@.subrange(from as int, to as int),
                k,
            ),
        decreases to - i,
    {
        assert(v@.subrange(i as int, to as int).drop_first() =~= v@.subrange(i + 1, to as int));
        i = i + 1;
    }
    i
}

/// Where the characters of `k` at the back of `v[from..to]` begin.
fn back_start(v: &Vec<char>, from: usize, to: usize, k: Class) -> (r: usize)
    requires
        from <= to <= v.len(),
    ensures
        from <= r <= to,
        v@.subrange(from as int, r as int) == drop_back(v@.subrange(from as int, to as int), k),
{
    let mut i: usize = to;
    while i > from && class_has(k, v[i - 1])
        invariant
            from <= i <= to <= v.len(),
            drop_back(v@.subrange(from as int, i as int), k) == drop_back(
                v@.subrange(from as int, to as int),
                k,
            ),
        decreases i - from,
    {
        assert(v@.subrange(from as int, i as int).drop_last() =~= v@.subrange(from as int, i - 1));
        i = i - 1;
    }
    i
}

/// Removes the characters of `k` from the front.
pub fn without_front(s: &str, k: Class) -> (r: String)
    ensures
        r@ == drop_front(s@, k),
{
    let v = chars_of(s);
    let n: usize = v.len();
    let i: usize = front_end(&v, 0, n, k);
    assert(v@.subrange(0, n as int) =~= s@);
    text_of(&v, i, n)
}

/// Removes the characters of `k` from the back.
pub fn without_back(s: &str, k: Class) -> (r: String)
    ensures
        r@ == drop_back(s@, k),
{
    let v = chars_of(s);
    let n: usize = v.len();
    let i: usize = back_start(&v, 0, n, k);
    assert(v@.subrange(0, n as int) =~= s@);
    text_of(&v, 0, i)
}

/// Removes the characters of `k` from both ends.
pub fn stripped(s: &str, k: Class) -> (r: String)
    ensures
        r@ == strip(s@, k),
{
    let v = chars_of(s);
    let n: usize = v.len();
    let i: usize = front_end(&v, 0, n, k);
    let j: usize = back_start(&v, i, n, k);
    assert(v@.subrange(0, n as int) =~= s@);
    text_of(&v, i, j)
}

/// Removes white space from both ends.
pub fn trimmed(s: &str) -> (r: String)
    ensures
        r@ == trim(s@),
{
    stripped(s, Class::Space)
}

// ---------------------------------------------------------------------------
// Comparing and cutting
// ---------------------------------------------------------------------------

/// Whether `s` holds `n` at position `i`.
pub open spec fn holds_at(s: Seq<char>, n: Seq<char>, i: int) -> bool {
    0 <= i && i + n.len() <= s.len() && s.subrange(i, i + n.len()) == n
}

/// Whether `s` begins with `p`.
pub open spec fn begins(s: Seq<char>, p: Seq<char>) -> bool {
    holds_at(s, p, 0)
}

/// Whether `s` ends with `p`.
pub open spec fn finishes(s: Seq<char>, p: Seq<char>) -> bool {
    holds_at(s, p, s.len() - p.len())
}

/// `s` behind the prefix `p`.
pub open spec fn behind(s: Seq<char>, p: Seq<char>) -> Option<Seq<char>> {
    if begins(s, p) {
        Some(s.skip(p.len() as int))
    } else {
        None
    }
}

/// `s` before the suffix `p`.
pub open spec fn before(s: Seq<char>, p: Seq<char>) -> Option<Seq<char>> {
    if finishes(s, p) {
        Some(s.take(s.len() - p.len()))
    } else {
        None
    }
}

/// The first position at or after `i` where `s` holds `n`.
pub open spec fn find_from(s: Seq<char>, n: Seq<char>, i: int) -> Option<int>
    decreases s.len() + 1 - i,
{
    if i < 0 || i + n.len() > s.len() {
        None
    } else if holds_at(s, n, i) {
        Some(i)
    } else {
        find_from(s, n, i + 1)
    }
}

/// Whether `n` occurs in `s`.
pub open spec fn occurs(s: Seq<char>, n: Seq<char>) -> bool {
    find_from(s, n, 0) is Some
}

/// The first position of `c` in `s`, or the length of `s` where there is none.
pub open spec fn position(s: Seq<char>, c: char) -> int
    decreases s.len(),
{
    if s.len() == 0 || s[0] == c {
        0
    } else {
        1 + position(s.drop_first(), c)
    }
}

/// `s` cut at the first `c`, which belongs to neither part.
pub open spec fn cut(s: Seq<char>, c: char) -> Option<(Seq<char>, Seq<char>)> {
    let p = position(s, c);
    if p < s.len() {
        Some((s.take(p), s.skip(p + 1)))
    } else {
        None
    }
}

/// `position` is the first place of `c`.
pub proof fn lemma_position(s: Seq<char>, c: char)
    ensures
        0 <= position(s, c) <= s.len(),
        position(s, c) < s.len() ==> s[position(s, c)] == c,
        forall|j: int| 0 <= j < position(s, c) ==> s[j] != c,
    decreases s.len(),
{
    if s.len() == 0 || s[0] == c {
    } else {
        lemma_position(s.drop_first(), c);
        assert forall|j: int| 0 <= j < position(s, c) implies s[j] != c by {
            if j > 0 {
                assert(s.drop_first()[j - 1] == s[j]);
            }
        }
    }
}

/// A place of `c` with no `c` before it is `position`.
pub proof fn lemma_position_is(s: Seq<char>, c: char, p: int)
    requires
        0 <= p <= s.len(),
        p < s.len() ==> s[p] == c,
        forall|j: int| 0 <= j < p ==> s[j] != c,
    ensures
        position(s, c) == p,
{
    lemma_position(s, c);
    let q = position(s, c);
    if q < p {
        assert(s[q] != c);
    } else if p < q {
        assert(s[p] != c);
    }
}

/// Whether two texts are the same.
pub fn same(a: &str, b: &str) -> (r: bool)
    ensures
        r == (a@ == b@),
{
    let x = chars_of(a);
    let y = chars_of(b);
    if x.len() != y.len() {
        return false;
    }
    let mut i: usize = 0;
    while i < x.len()
        invariant
            x.len() == y.len(),
            i <= x.len(),
            x@ == a@,
            y@ == b@,
            forall|j: int| 0 <= j < i ==> x@[j] == y@[j],
        decreases x.len() - i,
    {
        if x[i] != y[i] {
            return false;
        }
        i = i + 1;
    }
    assert(a@ =~= b@);
    true
}

/// Whether `v` holds `n` at `i`.
fn chars_at(v: &Vec<char>, n: &Vec<char>, i: usize) -> (r: bool)
    ensures
        r == holds_at(v@, n@, i as int),
{
    if i > v.len() || v.len() - i < n.len() {
        return false;
    }
    let mut k: usize = 0;
    while k < n.len()
        invariant
            k <= n.len(),
            i + n.len() <= v.len(),
            forall|j: int| 0 <= j < k ==> v@[i + j] == n@[j],
        decreases n.len() - k,
    {
        if v[i + k] != n[k] {
            assert(v@.subrange(i as int, i + n@.len())[k as int] != n@[k as int]);
            return false;
        }
        k = k + 1;
    }
    assert(v@.subrange(i as int, i + n@.len()) =~= n@);
    true
}

/// Whether `s` begins with `p`.
pub fn begins_with(s: &str, p: &str) -> (r: bool)
    ensures
        r == begins(s@, p@),
{
    let v = chars_of(s);
    let n = chars_of(p);
    chars_at(&v, &n, 0)
}

/// Whether `s` ends with `p`.
pub fn ends_in(s: &str, p: &str) -> (r: bool)
    ensures
        r == finishes(s@, p@),
{
    let v = chars_of(s);
    let n = chars_of(p);
    n.len() <= v.len() && chars_at(&v, &n, v.len() - n.len())
}

/// `s` behind the prefix `p`, where it has that prefix.
pub fn cut_prefix(s: &str, p: &str) -> (r: Option<String>)
    ensures
        opt_text(r) == behind(s@, p@),
{
    let v = chars_of(s);
    let n = chars_of(p);
    if chars_at(&v, &n, 0) {
        assert(v@.subrange(n@.len() as int, v@.len() as int) =~= s@.skip(p@.len() as int));
        Some(text_of(&v, n.len(), v.len()))
    } else {
        None
    }
}

/// `s` before the suffix `p`, where it has that suffix.
pub fn cut_suffix(s: &str, p: &str) -> (r: Option<String>)
    ensures
        opt_text(r) == before(s@, p@),
{
    let v = chars_of(s);
    let n = chars_of(p);
    if n.len() <= v.len() && chars_at(&v, &n, v.len() - n.len()) {
        assert(v@.subrange(0, v@.len() - n@.len()) =~= s@.take(s@.len() - p@.len()));
        Some(text_of(&v, 0, v.len() - n.len()))
    } else {
        None
    }
}

/// The first position at or after `from` where `v` holds `n`.
pub fn find_chars(v: &Vec<char>, n: &Vec<char>, from: usize) -> (r: Option<usize>)
    ensures
        match r {
            Some(i) => find_from(v@, n@, from as int) == Some(i as int),
            None => find_from(v@, n@, from as int) is None,
        },
        r is Some ==> from <= r->0 && r->0 + n.len() <= v.len(),
{
    let mut i: usize = from;
    while i <= v.len() && v.len() - i >= n.len()
        invariant
            from <= i,
            find_from(v@, n@, i as int) == find_from(v@, n@, from as int),
        decreases v.len() + 1 - i,
    {
        if chars_at(v, n, i) {
            return Some(i);
        }
        if i == v.len() {
            assert(find_from(v@, n@, i + 1) is None);
            return None;
        }
        i = i + 1;
    }
    None
}

/// Whether `n` occurs in `s`.
pub fn contains(s: &str, n: &str) -> (r: bool)
    ensures
        r == occurs(s@, n@),
{
    let v = chars_of(s);
    let w = chars_of(n);
    find_chars(&v, &w, 0).is_some()
}

/// The first index at or after `from` where `v` holds `c`, or the length of `v`.
pub fn char_pos(v: &Vec<char>, from: usize, c: char) -> (r: usize)
    requires
        from <= v.len(),
    ensures
        from <= r <= v.len(),
        r - from == position(v@.skip(from as int), c),
        r < v.len() ==> v@[r as int] == c,
        forall|j: int| from <= j < r ==> v@[j] != c,
{
    let mut i: usize = from;
    while i < v.len() && v[i] != c
        invariant
            from <= i <= v.len(),
            forall|j: int| from <= j < i ==> v@[j] != c,
        decreases v.len() - i,
    {
        i = i + 1;
    }
    proof {
        lemma_position_is(v@.skip(from as int), c, i - from);
    }
    i
}

/// `s` cut at the first `c`.
pub fn cut_at(s: &str, c: char) -> (r: Option<(String, String)>)
    ensures
        match r {
            Some(p) => cut(s@, c) == Some((p.0@, p.1@)),
            None => cut(s@, c) is None,
        },
{
    let v = chars_of(s);
    let i: usize = char_pos(&v, 0, c);
    assert(v@.skip(0) =~= s@);
    if i < v.len() {
        assert(v@.subrange(0, i as int) =~= s@.take(i as int));
        assert(v@.subrange(i + 1, v@.len() as int) =~= s@.skip(i + 1));
        Some((text_of(&v, 0, i), text_of(&v, i + 1, v.len())))
    } else {
        None
    }
}

// ---------------------------------------------------------------------------
// Swapping and repeating
// ---------------------------------------------------------------------------

/// `s` with each character of the class as `to`.
pub open spec fn swap(s: Seq<char>, k: Class, to: char) -> Seq<char> {
    Seq::new(
        s.len(),
        |i: int|
            if in_class(k, s[i]) {
                to
            } else {
                s[i]
            },
    )
}

/// Writes `to` for each character of the class.
pub fn swapped(s: &str, k: Class, to: char) -> (r: String)
    ensures
        r@ == swap(s@, k, to),
{
    let v = chars_of(s);
    let mut r = String::new();
    let mut i: usize = 0;
    while i < v.len()
        invariant
            i <= v.len(),
            v@ == s@,
            r@ == swap(s@, k, to).take(i as int),
        decreases v.len() - i,
    {
        if class_has(k, v[i]) {
            r.push(to);
        } else {
            r.push(v[i]);
        }
        i = i + 1;
        assert(r@ =~= swap(s@, k, to).take(i as int));
    }
    assert(r@ =~= swap(s@, k, to));
    r
}

/// `s`, `n` times.
pub open spec fn repeat(s: Seq<char>, n: nat) -> Seq<char>
    decreases n,
{
    if n == 0 {
        seq![]
    } else {
        repeat(s, (n - 1) as nat) + s
    }
}

/// Writes `s` `n` times.
pub fn repeated(s: &str, n: usize) -> (r: String)
    ensures
        r@ == repeat(s@, n as nat),
{
    let mut r = String::new();
    let mut i: usize = 0;
    while i < n
        invariant
            i <= n,
            r@ == repeat(s@, i as nat),
        decreases n - i,
    {
        r.append(s);
        i = i + 1;
    }
    r
}

// ---------------------------------------------------------------------------
// Laws
// ---------------------------------------------------------------------------

/// Dropping a class from the front takes off its characters there, all of them
/// and nothing else.
pub proof fn law_the_front_is_dropped(s: Seq<char>, k: Class)
    ensures
        ({
            let n = s.len() - drop_front(s, k).len();
            &&& 0 <= n <= s.len()
            &&& drop_front(s, k) == s.skip(n)
            &&& forall|i: int| 0 <= i < n ==> in_class(k, #[trigger] s[i])
            &&& n < s.len() ==> !in_class(k, s[n])
        }),
    decreases s.len(),
{
    if s.len() > 0 && in_class(k, s[0]) {
        let t = s.drop_first();
        law_the_front_is_dropped(t, k);
        let n = s.len() - drop_front(s, k).len();
        assert(t.skip(n - 1) =~= s.skip(n));
        assert forall|i: int| 0 <= i < n implies in_class(k, #[trigger] s[i]) by {
            if i > 0 {
                assert(t[i - 1] == s[i]);
            }
        }
    } else {
        assert(s.skip(0) =~= s);
    }
}

/// Dropping a class from the back takes off its characters there, all of them
/// and nothing else.
pub proof fn law_the_back_is_dropped(s: Seq<char>, k: Class)
    ensures
        ({
            let n = drop_back(s, k).len() as int;
            &&& n <= s.len()
            &&& drop_back(s, k) == s.take(n)
            &&& forall|i: int| n <= i < s.len() ==> in_class(k, #[trigger] s[i])
            &&& n > 0 ==> !in_class(k, s[n - 1])
        }),
    decreases s.len(),
{
    if s.len() > 0 && in_class(k, s.last()) {
        let t = s.drop_last();
        law_the_back_is_dropped(t, k);
        let n = drop_back(s, k).len() as int;
        assert(t.take(n) =~= s.take(n));
        assert forall|i: int| n <= i < s.len() implies in_class(k, #[trigger] s[i]) by {
            if i < t.len() {
                assert(t[i] == s[i]);
            }
        }
    } else {
        assert(s.take(s.len() as int) =~= s);
    }
}

/// `i` and `j` enclose what is left of `s`: outside stands the class alone, and
/// it stands at neither end inside.
pub open spec fn encloses(s: Seq<char>, k: Class, i: int, j: int) -> bool {
    &&& 0 <= i <= j <= s.len()
    &&& forall|x: int| 0 <= x < i || j <= x < s.len() ==> in_class(k, #[trigger] s[x])
    &&& i < j ==> !in_class(k, s[i]) && !in_class(k, s[j - 1])
}

/// Trimming takes white space off both ends and leaves what stands between.
pub proof fn law_trimming_takes_the_ends_off(s: Seq<char>)
    ensures
        exists|i: int, j: int|
            #[trigger] encloses(s, Class::Space, i, j) && trim(s) == s.subrange(i, j),
{
    let k = Class::Space;
    let t = drop_front(s, k);
    law_the_front_is_dropped(s, k);
    law_the_back_is_dropped(t, k);
    let i = s.len() - t.len();
    let j = i + trim(s).len();
    assert forall|x: int| 0 <= x < i || j <= x < s.len() implies in_class(k, #[trigger] s[x]) by {
        if j <= x {
            assert(s[x] == t[x - i]);
        }
    }
    if i < j {
        assert(s[j - 1] == t[j - i - 1]);
    }
    assert(trim(s) =~= s.subrange(i, j));
    assert(encloses(s, k, i, j));
}

/// A text is cut at the first place of a character: what stands before it does
/// not hold it, and the two parts with it between them are the text.
pub proof fn law_a_text_is_cut_at_the_first(a: Seq<char>, c: char, b: Seq<char>)
    requires
        !a.contains(c),
    ensures
        cut(a.push(c) + b, c) == Some((a, b)),
        cut(a, c) is None,
{
    let s = a.push(c) + b;
    assert(s[a.len() as int] == c);
    assert forall|j: int| 0 <= j < a.len() implies a[j] != c && s[j] != c by {
        assert(s[j] == a[j]);
        if a[j] == c {
            assert(a.contains(c));
        }
    }
    lemma_position_is(s, c, a.len() as int);
    lemma_position_is(a, c, a.len() as int);
    assert(s.take(a.len() as int) =~= a);
    assert(s.skip(a.len() as int + 1) =~= b);
}

/// What is found is the first place at or behind `i`; where nothing is found,
/// there is none.
pub proof fn law_the_first_place_is_found(s: Seq<char>, n: Seq<char>, i: int)
    requires
        0 <= i,
    ensures
        match find_from(s, n, i) {
            Some(p) => i <= p && p + n.len() <= s.len() && s.subrange(p, p + n.len()) == n
                && forall|j: int|
                i <= j < p ==> #[trigger] s.subrange(j, j + n.len()) != n,
            None => forall|j: int|
                i <= j && j + n.len() <= s.len() ==> #[trigger] s.subrange(j, j + n.len()) != n,
        },
    decreases s.len() + 1 - i,
{
    if i + n.len() <= s.len() && !holds_at(s, n, i) {
        law_the_first_place_is_found(s, n, i + 1);
    }
}

/// A text that is repeated is the text, over and over.
pub proof fn law_repeating_adds_up(s: Seq<char>, m: nat, n: nat)
    ensures
        repeat(s, 0) == Seq::<char>::empty(),
        repeat(s, 1) == s,
        repeat(s, m + n) == repeat(s, m) + repeat(s, n),
    decreases n,
{
    reveal_with_fuel(repeat, 2);
    assert(repeat(s, 1) =~= s);
    if n == 0 {
        assert(repeat(s, m) + repeat(s, 0) =~= repeat(s, m));
    } else {
        law_repeating_adds_up(s, m, (n - 1) as nat);
        assert(repeat(s, m + n) == repeat(s, (m + n - 1) as nat) + s);
        assert(repeat(s, m + n) =~= repeat(s, m) + repeat(s, n));
    }
}

/// A prefix that is taken off can be put back, and so can a suffix.
pub proof fn law_prefix_and_suffix_come_off(p: Seq<char>, s: Seq<char>)
    ensures
        behind(p + s, p) == Some(s),
        before(s + p, p) == Some(s),
        forall|t: Seq<char>|
            (#[trigger] behind(s, t) is Some ==> s == t + behind(s, t)->0) && (#[trigger] before(
                s,
                t,
            ) is Some ==> s == before(s, t)->0 + t),
{
    assert((p + s).subrange(0, p.len() as int) =~= p);
    assert((p + s).skip(p.len() as int) =~= s);
    assert((s + p).subrange(s.len() as int, (s + p).len() as int) =~= p);
    assert((s + p).take(s.len() as int) =~= s);
    assert forall|t: Seq<char>|
        (#[trigger] behind(s, t) is Some ==> s == t + behind(s, t)->0) && (#[trigger] before(
            s,
            t,
        ) is Some ==> s == before(s, t)->0 + t) by {
        if begins(s, t) {
            assert(s =~= s.subrange(0, t.len() as int) + s.skip(t.len() as int));
        }
        if finishes(s, t) {
            assert(s =~= s.take(s.len() - t.len()) + s.subrange(
                s.len() - t.len(),
                s.len() as int,
            ));
        }
    }
}

/// A text of blanks.
pub open spec fn is_blank(s: Seq<char>) -> bool {
    forall|i: int| 0 <= i < s.len() ==> is_space(#[trigger] s[i])
}

/// Blanks around a text are what trimming takes off.
pub proof fn law_blanks_around_are_trimmed(a: Seq<char>, s: Seq<char>, b: Seq<char>)
    requires
        is_blank(a),
        is_blank(b),
        s.len() > 0 ==> !is_space(s[0]) && !is_space(s.last()),
    ensures
        trim(a + s + b) == s,
        s.len() > 0 ==> drop_front(a + s + b, Class::Space) == s + b,
{
    let k = Class::Space;
    let t = a + s + b;
    law_the_front_is_dropped(t, k);
    let r = drop_front(t, k);
    let n = t.len() - r.len();
    law_the_back_is_dropped(r, k);
    let m = trim(t).len() as int;
    if s.len() > 0 {
        let x = a.len() as int;
        assert(t[x] == s[0]);
        assert(n == x) by {
            if n > x {
                assert(in_class(k, t[x]));
            } else if n < x {
                assert(t[n] == a[n]);
            }
        }
        assert(r =~= s + b);
        assert(r[s.len() - 1] == s.last());
        assert(m == s.len()) by {
            if m < s.len() {
                assert(in_class(k, r[s.len() - 1]));
            } else if m > s.len() {
                assert(r[m - 1] == b[m - 1 - s.len()]);
            }
        }
        assert(trim(t) =~= s);
    } else {
        assert(n == t.len()) by {
            if n < t.len() {
                if n < a.len() {
                    assert(t[n] == a[n]);
                } else {
                    assert(t[n] == b[n - a.len()]);
                }
            }
        }
        assert(trim(t) =~= s);
    }
}

/// White space is the tabulators, line feeds and the like from U+0009 to U+000D,
/// the blank, and the blanks that Unicode has besides.
pub proof fn law_white_space_is_that_of_unicode(c: char)
    ensures
        is_space(c) <==> (0x9 <= c as int <= 0xd || c as int == 0x20 || c as int == 0x85 || c as int
            == 0xa0 || c as int == 0x1680 || 0x2000 <= c as int <= 0x200a || c as int == 0x2028
            || c as int == 0x2029 || c as int == 0x202f || c as int == 0x205f || c as int
            == 0x3000),
        in_class(Class::Space, c) == is_space(c),
        forall|a: char| #[trigger] in_class(Class::One(a), c) == (c == a),
        forall|a: char, b: char| #[trigger]
            in_class(Class::Two(a, b), c) == (c == a || c == b),
{
}

/// A text that is put into another occurs there, and begins or ends it where it
/// is put at that end.
pub proof fn law_parts_occur(a: Seq<char>, n: Seq<char>, b: Seq<char>)
    ensures
        occurs(a + n + b, n),
        begins(n + b, n),
        finishes(a + n, n),
{
    let t = a + n + b;
    let i = a.len() as int;
    assert(t.subrange(i, i + n.len()) =~= n);
    assert(occurs(t, n)) by {
        law_the_first_place_is_found(t, n, 0);
    }
    assert((n + b).subrange(0, n.len() as int) =~= n);
    assert((a + n).subrange(i, (a + n).len() as int) =~= n);
}

/// A text that occurs in another is a part of it, its first one where the other
/// begins with it, its last one where it ends with it.
pub proof fn law_what_occurs_is_a_part(s: Seq<char>, n: Seq<char>)
    ensures
        occurs(s, n) ==> exists|i: int|
            0 <= i && i + n.len() <= s.len() && #[trigger] s.subrange(i, i + n.len()) == n,
        begins(s, n) ==> n.len() <= s.len() && s.take(n.len() as int) == n,
        finishes(s, n) ==> n.len() <= s.len() && s.skip(s.len() - n.len()) == n,
{
    if occurs(s, n) {
        law_the_first_place_is_found(s, n, 0);
        let p = find_from(s, n, 0)->0;
        assert(s.subrange(p, p + n.len()) == n);
    }
    if begins(s, n) {
        assert(s.take(n.len() as int) =~= s.subrange(0, n.len() as int));
    }
    if finishes(s, n) {
        assert(s.skip(s.len() - n.len()) =~= s.subrange(s.len() - n.len(), s.len() as int));
    }
}

/// Characters of a class are swapped one by one; the others stay.
pub proof fn law_characters_are_swapped(s: Seq<char>, k: Class, to: char, i: int)
    requires
        0 <= i < s.len(),
    ensures
        swap(s, k, to).len() == s.len(),
        in_class(k, s[i]) ==> swap(s, k, to)[i] == to,
        !in_class(k, s[i]) ==> swap(s, k, to)[i] == s[i],
{
}

/// A place that holds the text, with none before it that does, is what is found.
pub proof fn lemma_find_from_is(s: Seq<char>, n: Seq<char>, i: int, p: int)
    requires
        0 <= i <= p,
        holds_at(s, n, p),
        forall|j: int| i <= j < p ==> !(#[trigger] holds_at(s, n, j)),
    ensures
        find_from(s, n, i) == Some(p),
    decreases p - i,
{
    if i < p {
        assert(!holds_at(s, n, i));
        lemma_find_from_is(s, n, i + 1, p);
    }
}

/// Where nothing is found, no place holds the text.
pub proof fn lemma_nothing_found(s: Seq<char>, n: Seq<char>, i: int)
    requires
        0 <= i,
        find_from(s, n, i) is None,
    ensures
        forall|j: int| i <= j ==> !(#[trigger] holds_at(s, n, j)),
    decreases s.len() + 1 - i,
{
    if i + n.len() <= s.len() {
        lemma_nothing_found(s, n, i + 1);
        assert forall|j: int| i <= j implies !(#[trigger] holds_at(s, n, j)) by {
            if i < j {
                assert(i + 1 <= j);
            }
        }
    }
}

/// The two parts of a text that was cut, with the character between them, are
/// the text.
pub proof fn lemma_cut_parts(s: Seq<char>, c: char)
    ensures
        match cut(s, c) {
            Some((a, b)) => s == a.push(c) + b && a.len() < s.len() && (a.len() > 0 ==> a[0]
                == s[0]),
            None => true,
        },
{
    lemma_position(s, c);
    let p = position(s, c);
    if p < s.len() {
        assert(s =~= s.take(p).push(c) + s.skip(p + 1));
    }
}

} // verus!

//! Numbers written and read as text.

use vstd::prelude::*;

use crate::text::chars_of;

verus! {

/// The decimal digit `d`.
pub open spec fn digit(d: nat) -> char {
    (48 + d) as char
}

/// `n` in decimal.
pub open spec fn dec(n: nat) -> Seq<char>
    decreases n,
{
    if n < 10 {
        seq![digit(n)]
    } else {
        dec(n / 10).push(digit(n % 10))
    }
}

/// `i` in decimal, with a minus sign where it is negative.
pub open spec fn dec_int(i: int) -> Seq<char> {
    if i < 0 {
        seq!['-'] + dec((-i) as nat)
    } else {
        dec(i as nat)
    }
}

/// The digit character of `d`.
fn digit_char(d: u64) -> (c: char)
    requires
        d < 10,
    ensures
        c == digit(d as nat),
{
    (48u8 + d as u8) as char
}

/// Writes `n` in decimal.
pub fn to_dec(n: u64) -> (s: String)
    ensures
        s@ == dec(n as nat),
    decreases n,
{
    if n < 10 {
        let mut s = String::new();
        s.push(digit_char(n));
        assert(s@ =~= seq![digit(n as nat)]);
        s
    } else {
        let mut s = to_dec(n / 10);
        s.push(digit_char(n % 10));
        s
    }
}

/// Writes `i` in decimal.
pub fn to_dec_int(i: i64) -> (s: String)
    ensures
        s@ == dec_int(i as int),
{
    if i >= 0 {
        to_dec(i as u64)
    } else {
        let n: u64 = if i == i64::MIN {
            9223372036854775808u64
        } else {
            (-i) as u64
        };
        let mut s = String::new();
        s.push('-');
        let d = to_dec(n);
        s.append(d.as_str());
        assert(s@ =~= seq!['-'] + dec(n as nat));
        s
    }
}

/// The hexadecimal digit `d`, in lower case.
pub open spec fn hex_digit(d: nat) -> char {
    if d < 10 {
        (48 + d) as char
    } else {
        (87 + d) as char
    }
}

/// `n` in `width` lower-case hexadecimal digits, with zeros in front.
pub open spec fn hex(n: nat, width: nat) -> Seq<char>
    decreases width,
{
    if width == 0 {
        seq![]
    } else {
        hex(n / 16, (width - 1) as nat).push(hex_digit(n % 16))
    }
}

/// Appends the lowest `width` hexadecimal digits of `n`.
fn push_hex(s: &mut String, n: u64, width: u64)
    ensures
        final(s)@ == old(s)@ + hex(n as nat, width as nat),
    decreases width,
{
    if width == 0 {
        assert(s@ + hex(n as nat, 0) =~= s@);
    } else {
        push_hex(s, n / 16, width - 1);
        let d: u8 = (n % 16) as u8;
        if d < 10 {
            s.push((48u8 + d) as char);
        } else {
            s.push((87u8 + d) as char);
        }
        assert(s@ =~= old(s)@ + hex(n as nat, width as nat));
    }
}

/// Writes `n` in sixteen lower-case hexadecimal digits.
pub fn to_hex16(n: u64) -> (s: String)
    ensures
        s@ == hex(n as nat, 16),
{
    let mut s = String::new();
    push_hex(&mut s, n, 16);
    assert(s@ =~= hex(n as nat, 16));
    s
}

/// Whether `c` is a decimal digit.
pub open spec fn is_digit(c: char) -> bool {
    '0' <= c <= '9'
}

/// The value of the decimal digits `s`.
pub open spec fn digits_value(s: Seq<char>) -> nat
    decreases s.len(),
{
    if s.len() == 0 {
        0
    } else {
        digits_value(s.drop_last()) * 10 + (s.last() as nat - 48) as nat
    }
}

/// The digits of a number as it is read: a plus sign may stand before them.
pub open spec fn unsigned_part(s: Seq<char>) -> Seq<char> {
    if s.len() > 0 && s[0] == '+' {
        s.drop_first()
    } else {
        s
    }
}

/// The number that `s` writes in decimal, where it is one of at most `max`.
pub open spec fn read_number(s: Seq<char>, max: nat) -> Option<nat> {
    let d = unsigned_part(s);
    if d.len() > 0 && (forall|i: int| 0 <= i < d.len() ==> is_digit(#[trigger] d[i]))
        && digits_value(d) <= max {
        Some(digits_value(d))
    } else {
        None
    }
}

/// More digits never make the value smaller.
proof fn lemma_digits_grow(s: Seq<char>, i: int)
    requires
        0 <= i <= s.len(),
        forall|j: int| 0 <= j < s.len() ==> is_digit(#[trigger] s[j]),
    ensures
        digits_value(s.take(i)) <= digits_value(s),
    decreases s.len() - i,
{
    if i == s.len() {
        assert(s.take(i) =~= s);
    } else {
        lemma_digits_grow(s, i + 1);
        assert(s.take(i + 1).drop_last() =~= s.take(i));
        assert(is_digit(s[i]));
    }
}

/// Reads a decimal number of at most `max`.
pub fn parse_number(s: &str, max: u64) -> (r: Option<u64>)
    ensures
        match r {
            Some(n) => read_number(s@, max as nat) == Some(n as nat),
            None => read_number(s@, max as nat) is None,
        },
{
    let v = chars_of(s);
    let start: usize = if v.len() > 0 && v[0] == '+' {
        1
    } else {
        0
    };
    let ghost d = unsigned_part(s@);
    assert(d =~= v@.skip(start as int));
    if start == v.len() {
        return None;
    }
    let mut n: u64 = 0;
    let mut i: usize = start;
    assert(d.take(0).len() == 0);
    while i < v.len()
        invariant
            start <= i <= v.len(),
            start <= 1,
            start < v.len(),
            d == v@.skip(start as int),
            d == unsigned_part(s@),
            n <= max,
            n as nat == digits_value(d.take(i - start)),
            forall|j: int| 0 <= j < i - start ==> is_digit(#[trigger] d[j]),
        decreases v.len() - i,
    {
        let c: char = v[i];
        assert(d[i - start] == c);
        if c < '0' || c > '9' {
            return None;
        }
        let x: u64 = c as u64 - 48;
        assert(d.take(i - start + 1).drop_last() =~= d.take(i - start));
        assert(d.take(i - start + 1).last() == c);
        assert(digits_value(d.take(i - start + 1)) == n * 10 + x);
        if n > max / 10 || x > max || n * 10 > max - x {
            proof {
                if forall|j: int| 0 <= j < d.len() ==> is_digit(#[trigger] d[j]) {
                    lemma_digits_grow(d, i - start + 1);
                }
            }
            return None;
        }
        n = n * 10 + x;
        i = i + 1;
    }
    assert(d.take(i - start) =~= d);
    Some(n)
}

// ---------------------------------------------------------------------------
// Laws
// ---------------------------------------------------------------------------

/// A number that was written is read back; it is written with digits alone, and
/// with no zero in front.
pub proof fn law_numbers_read_back(n: nat, max: nat)
    ensures
        digits_value(dec(n)) == n,
        dec(n).len() > 0,
        forall|i: int| 0 <= i < dec(n).len() ==> '0' <= #[trigger] dec(n)[i] <= '9',
        n > 0 ==> dec(n)[0] != '0',
        n <= max ==> read_number(dec(n), max) == Some(n),
        n > max ==> read_number(dec(n), max) is None,
        read_number(seq!['+'] + dec(n), max) == read_number(dec(n), max),
    decreases n,
{
    if n >= 10 {
        law_numbers_read_back(n / 10, max);
        assert(dec(n).drop_last() =~= dec(n / 10));
        assert(dec(n)[0] == dec(n / 10)[0]);
    } else {
        assert(dec(n).drop_last() =~= seq![]);
        assert(digits_value(dec(n).drop_last()) == 0);
    }
    assert(dec(n)[0] != '+') by {
        assert('0' <= dec(n)[0]);
    }
    assert((seq!['+'] + dec(n)).drop_first() =~= dec(n));
    assert forall|i: int| 0 <= i < dec(n).len() implies is_digit(#[trigger] dec(n)[i]) by {}
}

/// The value of a digit of hexadecimal numbers.
pub open spec fn hex_value(c: char) -> int {
    if c <= '9' {
        c as int - 48
    } else {
        c as int - 87
    }
}

/// The value of hexadecimal digits.
pub open spec fn hexes_value(s: Seq<char>) -> int
    decreases s.len(),
{
    if s.len() == 0 {
        0
    } else {
        hexes_value(s.drop_last()) * 16 + hex_value(s.last())
    }
}

/// Sixteen to a power.
pub open spec fn sixteens(n: nat) -> nat
    decreases n,
{
    if n == 0 {
        1
    } else {
        16 * sixteens((n - 1) as nat)
    }
}

/// A hexadecimal number that was written has its width, lower-case digits alone,
/// and the value of what was written.
pub proof fn law_hexadecimal_numbers_read_back(n: nat, width: nat)
    ensures
        hex(n, width).len() == width,
        forall|i: int|
            0 <= i < width ==> '0' <= #[trigger] hex(n, width)[i] <= '9' || 'a' <= hex(n, width)[i]
                <= 'f',
        n < sixteens(width) ==> hexes_value(hex(n, width)) == n,
    decreases width,
{
    if width > 0 {
        law_hexadecimal_numbers_read_back(n / 16, (width - 1) as nat);
        assert(hex(n, width).drop_last() =~= hex(n / 16, (width - 1) as nat));
    }
}

/// A negative number is written with a minus sign in front, any other without.
pub proof fn law_signs_are_written(n: nat)
    ensures
        dec_int(n as int) == dec(n),
        n > 0 ==> dec_int(-n) == seq!['-'] + dec(n),
{
}

} // verus!

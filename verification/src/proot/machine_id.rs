//! The machine id of the guest.

use vstd::prelude::*;

use crate::numbers::{hex, hex_digit, to_hex16};
use crate::text::{chars_of, trim, trimmed};

verus! {

/// A hexadecimal digit of either case.
pub open spec fn is_hex(c: char) -> bool {
    '0' <= c <= '9' || 'a' <= c <= 'f' || 'A' <= c <= 'F'
}

/// A machine id: thirty-two hexadecimal digits, not all of them zero, with
/// blanks at the ends.
pub open spec fn is_machine_id(value: Seq<char>) -> bool {
    let t = trim(value);
    &&& t.len() == 32
    &&& forall|i: int| 0 <= i < t.len() ==> is_hex(#[trigger] t[i])
    &&& exists|i: int| 0 <= i < t.len() && #[trigger] t[i] != '0'
}

/// Whether a text is a machine id.
pub fn is_valid_machine_id(value: &str) -> (r: bool)
    ensures
        r == is_machine_id(value@),
{
    let t = trimmed(value);
    let v = chars_of(t.as_str());
    if v.len() != 32 {
        return false;
    }
    let mut nonzero: bool = false;
    let mut i: usize = 0;
    while i < v.len()
        invariant
            i <= v.len(),
            v@ == trim(value@),
            forall|j: int| 0 <= j < i ==> is_hex(#[trigger] v@[j]),
            nonzero == exists|j: int| 0 <= j < i && #[trigger] v@[j] != '0',
        decreases v.len() - i,
    {
        let c: char = v[i];
        let ghost before = nonzero;
        if !(('0' <= c && c <= '9') || ('a' <= c && c <= 'f') || ('A' <= c && c <= 'F')) {
            assert(!is_hex(v@[i as int]));
            return false;
        }
        if c != '0' {
            nonzero = true;
        }
        assert(nonzero == (before || v@[i as int] != '0'));
        i = i + 1;
    }
    nonzero
}

/// A letter of the alphabet in lower case; any other character as it is.
pub open spec fn lower(c: char) -> char {
    if 'A' <= c <= 'Z' {
        (c as int + 32) as char
    } else {
        c
    }
}

/// A text in lower case and without dashes.
pub open spec fn undashed(s: Seq<char>) -> Seq<char>
    decreases s.len(),
{
    if s.len() == 0 {
        seq![]
    } else if s.last() == '-' {
        undashed(s.drop_last())
    } else {
        undashed(s.drop_last()).push(lower(s.last()))
    }
}

/// The id that a random uuid gives.
pub open spec fn uuid_id(uuid: Seq<char>) -> Seq<char> {
    undashed(trim(uuid))
}

/// The id that the clock and the process give.
pub open spec fn clock_id(nanos: u64, pid: u64) -> Seq<char> {
    hex(nanos as nat, 16) + hex(pid as nat, 16)
}

/// A new id: that of the uuid, where there is one that gives an id, or that of
/// the clock and the process.
pub open spec fn new_id(uuid: Option<Seq<char>>, nanos: u64, pid: u64) -> Seq<char> {
    match uuid {
        Some(u) => if is_machine_id(uuid_id(u)) {
            uuid_id(u)
        } else {
            clock_id(nanos, pid)
        },
        None => clock_id(nanos, pid),
    }
}

/// Puts a letter in lower case.
fn to_lower(c: char) -> (r: char)
    ensures
        r == lower(c),
{
    if 'A' <= c && c <= 'Z' {
        (c as u8 + 32) as char
    } else {
        c
    }
}

/// Takes the dashes out of a text and puts it in lower case.
fn without_dashes(s: &str) -> (r: String)
    ensures
        r@ == undashed(s@),
{
    let v = chars_of(s);
    let mut r = String::new();
    let mut i: usize = 0;
    assert(v@.take(0) =~= seq![]);
    while i < v.len()
        invariant
            i <= v.len(),
            v@ == s@,
            r@ == undashed(v@.take(i as int)),
        decreases v.len() - i,
    {
        assert(v@.take(i + 1).drop_last() =~= v@.take(i as int));
        if v[i] != '-' {
            r.push(to_lower(v[i]));
        }
        i = i + 1;
    }
    assert(v@.take(i as int) =~= s@);
    r
}

/// Makes an id from a random uuid, if there is one, or from the clock and the
/// number of the process.
pub fn generate_machine_id(uuid: &Option<String>, nanos: u64, pid: u64) -> (r: String)
    ensures
        r@ == new_id(crate::text::opt_text(*uuid), nanos, pid),
{
    match uuid {
        Some(u) => {
            let t = trimmed(u.as_str());
            let id = without_dashes(t.as_str());
            if is_valid_machine_id(id.as_str()) {
                return id;
            }
        },
        None => {},
    }
    let mut r = to_hex16(nanos);
    let p = to_hex16(pid);
    r.append(p.as_str());
    r
}

/// What to write as the machine id of the guest, given what it is; none where
/// that is an id.
pub fn machine_id_update(
    existing: &str,
    uuid: &Option<String>,
    nanos: u64,
    pid: u64,
) -> (r: Option<String>)
    ensures
        match r {
            Some(s) => !is_machine_id(existing@) && s@ == new_id(
                crate::text::opt_text(*uuid),
                nanos,
                pid,
            ).push('\n'),
            None => is_machine_id(existing@),
        },
{
    if is_valid_machine_id(existing) {
        None
    } else {
        let mut id = generate_machine_id(uuid, nanos, pid);
        id.push('\n');
        Some(id)
    }
}

/// The digits of a number are hexadecimal, and not all zero unless it is.
proof fn lemma_hex(n: nat, width: nat)
    ensures
        hex(n, width).len() == width,
        forall|i: int| 0 <= i < width ==> is_hex(#[trigger] hex(n, width)[i]),
        (forall|i: int| 0 <= i < width ==> #[trigger] hex(n, width)[i] == '0') ==> n
            % pow16(width) == 0,
    decreases width,
{
    if width > 0 {
        let w = (width - 1) as nat;
        lemma_hex(n / 16, w);
        let h = hex(n, width);
        let front = hex(n / 16, w);
        assert(is_hex(hex_digit(n % 16)));
        assert forall|i: int| 0 <= i < width implies is_hex(#[trigger] h[i]) by {
            if i < w {
                assert(h[i] == front[i]);
            }
        }
        if forall|i: int| 0 <= i < width ==> #[trigger] h[i] == '0' {
            assert forall|i: int| 0 <= i < w implies #[trigger] front[i] == '0' by {
                assert(h[i] == front[i]);
            }
            assert(h[w as int] == hex_digit(n % 16));
            assert(n % 16 == 0);
            let k = pow16(w);
            lemma_pow16(w);
            let q = (n / 16) / k;
            vstd::arithmetic::div_mod::lemma_fundamental_div_mod((n / 16) as int, k as int);
            assert(n / 16 == k * q);
            assert(n == (16 * k) * q) by (nonlinear_arith)
                requires
                    n / 16 == k * q,
                    n == 16 * (n / 16),
            ;
            vstd::arithmetic::div_mod::lemma_mod_multiples_basic(q as int, (16 * k) as int);
            assert(n as int == q * (16 * k)) by (nonlinear_arith)
                requires
                    n == (16 * k) * q,
            ;
        }
    } else {
        assert(n % 1 == 0);
    }
}

/// Sixteen to the power of `w`.
pub open spec fn pow16(w: nat) -> nat
    decreases w,
{
    if w == 0 {
        1
    } else {
        16 * pow16((w - 1) as nat)
    }
}

proof fn lemma_pow16(w: nat)
    ensures
        pow16(w) > 0,
    decreases w,
{
    if w > 0 {
        lemma_pow16((w - 1) as nat);
    }
}

/// A text of hexadecimal digits has no blanks to trim.
proof fn lemma_hex_is_trim(s: Seq<char>)
    requires
        s.len() > 0,
        forall|i: int| 0 <= i < s.len() ==> is_hex(#[trigger] s[i]),
    ensures
        trim(s) == s,
{
    assert(is_hex(s[0]));
    assert(is_hex(s[s.len() - 1]));
}

/// A new id is a machine id, unless the clock and the process are both zero and
/// there is no uuid that gives one.
pub proof fn law_a_new_id_is_valid(uuid: Option<Seq<char>>, nanos: u64, pid: u64)
    requires
        nanos != 0 || pid != 0 || (uuid is Some && is_machine_id(uuid_id(uuid->0))),
    ensures
        is_machine_id(new_id(uuid, nanos, pid)),
{
    if !(uuid is Some && is_machine_id(uuid_id(uuid->0))) {
        let a = hex(nanos as nat, 16);
        let b = hex(pid as nat, 16);
        let s = clock_id(nanos, pid);
        lemma_hex(nanos as nat, 16);
        lemma_hex(pid as nat, 16);
        assert(pow16(16) == 0x1_0000_0000_0000_0000) by {
            reveal_with_fuel(pow16, 17);
        }
        assert forall|i: int| 0 <= i < s.len() implies is_hex(#[trigger] s[i]) by {
            if i < 16 {
                assert(s[i] == a[i]);
            } else {
                assert(s[i] == b[i - 16]);
            }
        }
        lemma_hex_is_trim(s);
        if nanos != 0 {
            let i = choose|i: int| 0 <= i < 16 && #[trigger] a[i] != '0';
            assert(s[i] == a[i]);
        } else {
            let i = choose|i: int| 0 <= i < 16 && #[trigger] b[i] != '0';
            assert(s[i + 16] == b[i]);
        }
    }
}

/// The id of a uuid is its digits: dashes are left out, letters are written
/// small, and everything else stays, piece by piece.
pub proof fn law_uuids_lose_their_dashes(a: Seq<char>, b: Seq<char>, c: char)
    ensures
        undashed(a + b) == undashed(a) + undashed(b),
        undashed(seq!['-']) == Seq::<char>::empty(),
        undashed(Seq::<char>::empty()) == Seq::<char>::empty(),
        '0' <= c <= '9' || 'a' <= c <= 'z' ==> undashed(seq![c]) == seq![c],
        'A' <= c <= 'Z' ==> undashed(seq![c]) == seq![(c as int - 'A' as int + 'a' as int) as char],
    decreases b.len(),
{
    reveal_with_fuel(undashed, 2);
    assert(seq!['-'].drop_last() =~= seq![]);
    assert(seq![c].drop_last() =~= seq![]);
    assert(Seq::<char>::empty().push(lower(c)) =~= seq![lower(c)]);
    if b.len() == 0 {
        assert(a + b =~= a);
        assert(undashed(a) + undashed(b) =~= undashed(a));
    } else {
        law_uuids_lose_their_dashes(a, b.drop_last(), c);
        assert((a + b).drop_last() =~= a + b.drop_last());
        assert(undashed(a + b) =~= undashed(a) + undashed(b));
    }
}

/// A new id is that of the uuid where this gives one, and else the clock and the
/// process in sixteen hexadecimal digits each.
pub proof fn law_the_uuid_comes_first(uuid: Seq<char>, nanos: u64, pid: u64)
    ensures
        is_machine_id(undashed(trim(uuid))) ==> new_id(Some(uuid), nanos, pid) == undashed(
            trim(uuid),
        ),
        !is_machine_id(undashed(trim(uuid))) ==> new_id(Some(uuid), nanos, pid) == new_id(
            None,
            nanos,
            pid,
        ),
        new_id(None, nanos, pid) == hex(nanos as nat, 16) + hex(pid as nat, 16),
{
}

/// A machine id has thirty-two hexadecimal digits, one of them not zero, blanks
/// around it aside.
pub proof fn law_machine_ids_have_thirty_two_digits(s: Seq<char>, i: int)
    requires
        0 <= i < s.len(),
        trim(s) == s,
    ensures
        is_machine_id(s) ==> s.len() == 32 && ('0' <= s[i] <= '9' || 'a' <= s[i] <= 'f' || 'A'
            <= s[i] <= 'F'),
        s.len() == 32 && s[i] != '0' && (forall|j: int|
            0 <= j < 32 ==> '0' <= #[trigger] s[j] <= '9' || 'a' <= s[j] <= 'f' || 'A' <= s[j]
                <= 'F') ==> is_machine_id(s),
        (forall|j: int| 0 <= j < s.len() ==> #[trigger] s[j] == '0') ==> !is_machine_id(s),
{
}

} // verus!

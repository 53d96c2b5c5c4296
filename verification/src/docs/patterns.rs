//! Regular expressions over texts.
//!
//! The `regex` crate does the matching. What a pattern matches in a text has a
//! name here; `None` stands for a pattern that does not compile.

use vstd::prelude::*;

use regex::Regex;

use crate::bytes::sliceable;
use crate::text::opt_text;

verus! {

/// The byte ranges of the matches of `pattern` in `text`, in order.
pub uninterp spec fn pattern_ranges(pattern: Seq<char>, text: Seq<char>) -> Option<
    Seq<(usize, usize)>,
>;

/// The first match of `pattern` in `text`, or none.
pub uninterp spec fn pattern_first(pattern: Seq<char>, text: Seq<char>) -> Option<
    Option<Seq<char>>,
>;

/// `text` with every match of `pattern` replaced by `by`.
pub uninterp spec fn pattern_replaced(
    pattern: Seq<char>,
    text: Seq<char>,
    by: Seq<char>,
) -> Option<Seq<char>>;

/// `text` with the first match of `pattern` replaced by `by`.
pub uninterp spec fn pattern_replaced_first(
    pattern: Seq<char>,
    text: Seq<char>,
    by: Seq<char>,
) -> Option<Seq<char>>;

/// The first and the second group of every match of `pattern` in `text`, in order.
pub uninterp spec fn pattern_groups(pattern: Seq<char>, text: Seq<char>) -> Option<
    Seq<(Option<Seq<char>>, Option<Seq<char>>)>,
>;

/// The views of pairs of groups.
pub open spec fn groups_view(v: Seq<(Option<String>, Option<String>)>) -> Seq<
    (Option<Seq<char>>, Option<Seq<char>>),
> {
    Seq::new(v.len(), |i: int| (opt_text(v[i].0), opt_text(v[i].1)))
}

/// Calls `regex::Regex::new` and `find_iter`. The ranges are those of
/// `pattern_ranges`; as that crate promises of every match, each lies in the
/// text and falls on character boundaries. Nothing else is claimed of them.
#[verifier::external_body]
pub(crate) fn find_ranges(pattern: &str, text: &str) -> (r: Option<Vec<(usize, usize)>>)
    ensures
        match r {
            Some(v) => pattern_ranges(pattern@, text@) == Some(v@),
            None => pattern_ranges(pattern@, text@) is None,
        },
        r is Some ==> forall|i: int|
            0 <= i < r->0@.len() ==> sliceable(
                text@,
                (#[trigger] r->0@[i]).0 as int,
                r->0@[i].1 as int,
            ),
{
    let re = Regex::new(pattern).ok()?;
    Some(re.find_iter(text).map(|m| (m.start(), m.end())).collect())
}

/// Calls `regex::Regex::new` and `find`: the text of the first match is that of
/// `pattern_first`.
#[verifier::external_body]
pub(crate) fn find_first(pattern: &str, text: &str) -> (r: Option<Option<String>>)
    ensures
        match r {
            Some(m) => pattern_first(pattern@, text@) == Some(opt_text(m)),
            None => pattern_first(pattern@, text@) is None,
        },
{
    let re = Regex::new(pattern).ok()?;
    Some(re.find(text).map(|m| m.as_str().to_string()))
}

/// Calls `regex::Regex::new` and `replace_all`: the text is that of `pattern_replaced`.
#[verifier::external_body]
pub(crate) fn replace_all(pattern: &str, text: &str, by: &str) -> (r: Option<String>)
    ensures
        opt_text(r) == pattern_replaced(pattern@, text@, by@),
{
    let re = Regex::new(pattern).ok()?;
    Some(re.replace_all(text, by).into_owned())
}

/// Calls `regex::Regex::new` and `replace`: the text is that of `pattern_replaced_first`.
#[verifier::external_body]
pub(crate) fn replace_first(pattern: &str, text: &str, by: &str) -> (r: Option<String>)
    ensures
        opt_text(r) == pattern_replaced_first(pattern@, text@, by@),
{
    let re = Regex::new(pattern).ok()?;
    Some(re.replace(text, by).into_owned())
}

/// Calls `regex::Regex::new` and `captures_iter`: the texts of the groups are
/// those of `pattern_groups`.
#[verifier::external_body]
pub(crate) fn find_groups(pattern: &str, text: &str) -> (r: Option<
    Vec<(Option<String>, Option<String>)>,
>)
    ensures
        match r {
            Some(v) => pattern_groups(pattern@, text@) == Some(groups_view(v@)),
            None => pattern_groups(pattern@, text@) is None,
        },
{
    let re = Regex::new(pattern).ok()?;
    let group = |m: Option<regex::Match>| m.map(|m| m.as_str().to_string());
    Some(re.captures_iter(text).map(|c| (group(c.get(1)), group(c.get(2)))).collect())
}

} // verus!

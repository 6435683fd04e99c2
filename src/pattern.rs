//! Regular-expression matching, done by the `regex` crate.
use vstd::prelude::*;
use crate::text::opt_text;

verus! {

/// The capture groups of the leftmost-first match of `pattern` in `hay` (group 0 is the whole
/// match; a group that took no part is `None`), or `None` where the pattern does not match or
/// does not compile.
pub uninterp spec fn regex_captures(pattern: Seq<char>, hay: Seq<char>) -> Option<
    Seq<Option<Seq<char>>>,
>;

/// Whether `pattern` matches somewhere in `hay` (false where it does not compile).
pub uninterp spec fn regex_is_match(pattern: Seq<char>, hay: Seq<char>) -> bool;

/// `hay` with the leftmost-first match of `pattern` replaced by `rep` (unchanged where the
/// pattern does not match or does not compile).
pub uninterp spec fn regex_replace(pattern: Seq<char>, hay: Seq<char>, rep: Seq<char>) -> Seq<char>;

pub open spec fn groups_view(c: Option<Vec<Option<String>>>) -> Option<Seq<Option<Seq<char>>>> {
    match c {
        Some(v) => Some(v@.map_values(|o: Option<String>| opt_text(o))),
        None => None,
    }
}

/// The text of group `i`, where the match and the group exist.
pub open spec fn group_of(c: Option<Seq<Option<Seq<char>>>>, i: int) -> Option<Seq<char>> {
    match c {
        Some(g) => if 0 <= i < g.len() {
            g[i]
        } else {
            None
        },
        None => None,
    }
}

/// Relies on `regex::Regex::new` to compile `pattern` and on `regex::Regex::captures` for the
/// groups of its leftmost-first match in `hay`.
#[verifier::external_body]
pub(crate) fn captures(pattern: &str, hay: &str) -> (r: Option<Vec<Option<String>>>)
    ensures
        groups_view(r) == regex_captures(pattern@, hay@),
{
    let re = regex::Regex::new(pattern).ok()?;
    let caps = re.captures(hay)?;
    Some(caps.iter().map(|m| m.map(|m| m.as_str().to_string())).collect())
}

/// Relies on `regex::Regex::new` to compile `pattern` and on `regex::Regex::is_match`.
#[verifier::external_body]
pub(crate) fn is_match(pattern: &str, hay: &str) -> (r: bool)
    ensures
        r == regex_is_match(pattern@, hay@),
{
    match regex::Regex::new(pattern) {
        Ok(re) => re.is_match(hay),
        Err(_) => false,
    }
}

/// The text of group `i` of a match.
pub fn group_at(c: &Option<Vec<Option<String>>>, i: usize) -> (r: Option<String>)
    ensures
        opt_text(r) == group_of(groups_view(*c), i as int),
{
    match c {
        Some(v) => if i < v.len() {
            match &v[i] {
                Some(s) => Some(s.clone()),
                None => None,
            }
        } else {
            None
        },
        None => None,
    }
}


/// Relies on `regex::Regex::new` to compile `pattern` and on `regex::Regex::replace`, which
/// replaces the first match; `rep` is used literally.
#[verifier::external_body]
pub(crate) fn replace_first(pattern: &str, hay: &str, rep: &str) -> (r: String)
    ensures
        r@ == regex_replace(pattern@, hay@, rep@),
{
    match regex::Regex::new(pattern) {
        Ok(re) => re.replace(hay, regex::NoExpand(rep)).into_owned(),
        Err(_) => hay.to_owned(),
    }
}
} // verus!

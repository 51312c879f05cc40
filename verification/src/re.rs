//! Regular expressions, as the `regex` crate evaluates them.

use vstd::prelude::*;

verus! {

/// Whether `pattern` matches somewhere in `text`; nothing where `pattern` is
/// no valid regular expression.
pub uninterp spec fn regex_search(pattern: Seq<char>, text: Seq<char>) -> Option<bool>;

/// Compiles `pattern` with `regex::Regex::new` and asks `Regex::is_match` for
/// `text`. The outcome depends on the two texts alone, which is all that the
/// contract claims: it gives the outcome its name.
#[verifier::external_body]
pub(crate) fn is_match(pattern: &str, text: &str) -> (r: Option<bool>)
    ensures
        r == regex_search(pattern@, text@),
{
    match regex::Regex::new(pattern) {
        Ok(re) => Some(re.is_match(text)),
        Err(_) => None,
    }
}


/// The text in which every match of `pattern` in `text`, from left to right
/// and without overlap, is replaced by `rep`, where `$n` stands for what the
/// n-th group of the match has captured; nothing where `pattern` is no valid
/// regular expression.
pub uninterp spec fn regex_replaced(pattern: Seq<char>, text: Seq<char>, rep: Seq<char>) -> Option<
    Seq<char>,
>;

/// Compiles `pattern` with `regex::Regex::new` and calls `Regex::replace_all`
/// on `text` with the replacement `rep`. The outcome depends on the three
/// texts alone, which is all that the contract claims: it gives the outcome
/// its name.
#[verifier::external_body]
pub(crate) fn replace_all(pattern: &str, text: &str, rep: &str) -> (r: Option<String>)
    ensures
        r is Some <==> regex_replaced(pattern@, text@, rep@) is Some,
        r is Some ==> r->0@ == regex_replaced(pattern@, text@, rep@)->0,
{
    match regex::Regex::new(pattern) {
        Ok(re) => Some(re.replace_all(text, rep).into_owned()),
        Err(_) => None,
    }
}

/// What the groups of the leftmost match of `pattern` in `text` have
/// captured, the whole match first; nothing where there is no match or
/// `pattern` is no valid regular expression. A group that took no part in
/// the match has captured nothing.
pub uninterp spec fn regex_captures(pattern: Seq<char>, text: Seq<char>) -> Option<
    Seq<Option<Seq<char>>>,
>;

/// The views of a list of optional strings, in order.
pub open spec fn group_views(groups: Seq<Option<String>>) -> Seq<Option<Seq<char>>> {
    groups.map_values(|g: Option<String>| crate::text::opt_text(g))
}

/// Compiles `pattern` with `regex::Regex::new`, calls `Regex::captures` on
/// `text` and copies out what each group has captured, as `Captures::iter`
/// hands it out. The outcome depends on the two texts alone, which is all
/// that the contract claims: it gives the outcome its name.
#[verifier::external_body]
pub(crate) fn captures(pattern: &str, text: &str) -> (r: Option<Vec<Option<String>>>)
    ensures
        r is Some <==> regex_captures(pattern@, text@) is Some,
        r is Some ==> group_views(r->0@) == regex_captures(pattern@, text@)->0,
{
    let re = match regex::Regex::new(pattern) {
        Ok(re) => re,
        Err(_) => return None,
    };
    match re.captures(text) {
        Some(found) => Some(found.iter().map(|m| m.map(|m| m.as_str().to_owned())).collect()),
        None => None,
    }
}

} // verus!

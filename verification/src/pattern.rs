//! Regular expressions.

use vstd::prelude::*;

verus! {

/// What a group of a match holds, where it took part in it.
pub open spec fn group_texts(v: Seq<Option<String>>) -> Seq<Option<Seq<char>>> {
    v.map_values(
        |g: Option<String>|
            match g {
                Some(s) => Some(s@),
                None => None,
            },
    )
}

/// The groups of the first match of a regular expression in a text, the whole match first; `None`
/// where it does not match or is none.
pub uninterp spec fn regex_groups(pattern: Seq<char>, text: Seq<char>) -> Option<
    Seq<Option<Seq<char>>>,
>;

/// `regex::Regex::new` and `captures`: the same groups for the same pattern and text every time.
#[verifier::external_body]
pub(crate) fn captures(pattern: &str, text: &str) -> (r: Option<Vec<Option<String>>>)
    ensures
        regex_groups(pattern@, text@) == match r {
            Some(v) => Some(group_texts(v@)),
            None => None,
        },
{
    let re = regex::Regex::new(pattern).ok()?;
    let found = re.captures(text)?;
    Some(found.iter().map(|g| g.map(|m| m.as_str().to_string())).collect())
}

/// Whether a text is a regular expression.
pub uninterp spec fn is_regex(pattern: Seq<char>) -> bool;

/// `regex::Regex::new`: whether it accepts the pattern, the same every time.
#[verifier::external_body]
pub(crate) fn compiles(pattern: &str) -> (r: bool)
    ensures
        r == is_regex(pattern@),
{
    regex::Regex::new(pattern).is_ok()
}

/// Whether a regular expression matches somewhere in a text; false where it is none.
pub uninterp spec fn regex_matches(pattern: Seq<char>, text: Seq<char>) -> bool;

/// `regex::Regex::new` and `is_match`: the same answer for the same pattern and text every time.
#[verifier::external_body]
pub(crate) fn is_match(pattern: &str, text: &str) -> (r: bool)
    ensures
        r == regex_matches(pattern@, text@),
{
    regex::Regex::new(pattern).is_ok_and(|re| re.is_match(text))
}

/// A text with each match of a regular expression exchanged for `with`; the text itself where the
/// pattern is none.
pub uninterp spec fn regex_replaced(pattern: Seq<char>, text: Seq<char>, with: Seq<char>) -> Seq<
    char,
>;

/// `regex::Regex::new` and `replace_all` with a literal replacement: the same text for the same
/// arguments every time.
#[verifier::external_body]
pub(crate) fn replace_all(pattern: &str, text: &str, with: &str) -> (r: String)
    ensures
        r@ == regex_replaced(pattern@, text@, with@),
{
    match regex::Regex::new(pattern) {
        Ok(re) => re.replace_all(text, regex::NoExpand(with)).into_owned(),
        Err(_) => text.to_string(),
    }
}

} // verus!

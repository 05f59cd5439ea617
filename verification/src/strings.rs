//! The string functions of the standard library and the replacing of the
//! regex engine that the station lookup is made of.
//!
//! What these return is taken on trust. Where a few lines say what a
//! function returns, the contract says it; where that takes the Unicode
//! tables or the rules of the regex engine, the result only gets a name.

use vstd::prelude::*;
use vstd::string::*;

verus! {

/// What `str::to_lowercase` returns for a text: its lower-case form by the
/// rules of Unicode.
pub uninterp spec fn lowercase_spec(text: Seq<char>) -> Seq<char>;

/// What `str::trim` returns for a text: the text without the white space,
/// in the sense of Unicode, at its start and end.
pub uninterp spec fn trim_spec(text: Seq<char>) -> Seq<char>;

/// What `str::split_whitespace` gives for a text: the runs of characters
/// between white space, in the sense of Unicode, in order.
pub uninterp spec fn words_spec(text: Seq<char>) -> Seq<Seq<char>>;

/// What `regex::Regex::replace_all` returns for a pattern, a text and a
/// replacement: the text with every match of the pattern replaced, where
/// `$1` in the replacement stands for the first group of the match. `None`
/// for a pattern that the engine rejects.
pub uninterp spec fn regex_replace_spec(
    pattern: Seq<char>,
    text: Seq<char>,
    replacement: Seq<char>,
) -> Option<Seq<char>>;

/// A text with every occurrence of `from` replaced by `to`, going from left
/// to right; occurrences do not overlap.
pub open spec fn replaced(text: Seq<char>, from: Seq<char>, to: Seq<char>) -> Seq<char>
    decreases text.len(),
{
    if from.len() == 0 || text.len() < from.len() {
        text
    } else if text.subrange(0, from.len() as int) == from {
        to + replaced(text.subrange(from.len() as int, text.len() as int), from, to)
    } else {
        seq![text[0]] + replaced(text.drop_first(), from, to)
    }
}

/// Whether `part` occurs in a text.
pub open spec fn contains_text(text: Seq<char>, part: Seq<char>) -> bool {
    exists|i: int|
        0 <= i && i + part.len() <= text.len() && #[trigger] text.subrange(i, i + part.len())
            == part
}

/// A text without the characters `a` and `b` at its end.
pub open spec fn without_trailing(text: Seq<char>, a: char, b: char) -> Seq<char>
    decreases text.len(),
{
    if text.len() > 0 && (text.last() == a || text.last() == b) {
        without_trailing(text.drop_last(), a, b)
    } else {
        text
    }
}

/// Calls `str::to_lowercase`. The contract only names the result.
#[verifier::external_body]
pub(crate) fn to_lowercase(text: &str) -> (r: String)
    ensures
        r@ == lowercase_spec(text@),
{
    text.to_lowercase()
}

/// Calls `str::trim` and copies the slice it returns. The contract only
/// names the result.
#[verifier::external_body]
pub(crate) fn trim(text: &str) -> (r: String)
    ensures
        r@ == trim_spec(text@),
{
    text.trim().to_string()
}

/// Calls `str::split_whitespace` and copies the slices it gives. The
/// contract only names the result.
#[verifier::external_body]
pub(crate) fn split_whitespace(text: &str) -> (r: Vec<String>)
    ensures
        crate::models::strings_view(r@) == words_spec(text@),
{
    text.split_whitespace().map(|word| word.to_string()).collect()
}

/// Calls `str::replace` with a pattern that is a text. The contract says
/// what the documentation says: every occurrence of the pattern, found from
/// left to right without overlap, is replaced.
#[verifier::external_body]
fn std_replace(text: &str, from: &str, to: &str) -> (r: String)
    requires
        from@.len() > 0,
    ensures
        r@ == replaced(text@, from@, to@),
{
    text.replace(from, to)
}

/// Calls `str::contains` with a pattern that is a text. The contract says
/// what the documentation says: whether the pattern matches a part of the
/// text.
#[verifier::external_body]
pub(crate) fn contains(text: &str, part: &str) -> (r: bool)
    ensures
        r == contains_text(text@, part@),
{
    text.contains(part)
}

/// Calls `str::trim_end_matches` with a pattern of two characters and
/// copies the slice it returns. The contract says what the documentation
/// says: the characters of the pattern are taken off the end for as long
/// as there are any.
#[verifier::external_body]
pub(crate) fn trim_end_matches(text: &str, a: char, b: char) -> (r: String)
    ensures
        r@ == without_trailing(text@, a, b),
{
    text.trim_end_matches([a, b]).to_string()
}

/// Runs `regex::Regex::new` on the pattern and `Regex::replace_all` on the
/// text and the replacement, and copies the result. The contract only names
/// the result.
#[verifier::external_body]
fn regex_replace(pattern: &str, text: &str, replacement: &str) -> (r: Option<String>)
    ensures
        match r {
            Some(out) => regex_replace_spec(pattern@, text@, replacement@) == Some(out@),
            None => regex_replace_spec(pattern@, text@, replacement@) is None,
        },
{
    match regex::Regex::new(pattern) {
        Ok(re) => Some(re.replace_all(text, replacement).to_string()),
        Err(_) => None,
    }
}

/// A text with every occurrence of `from` replaced by `to`. Where `from`
/// is empty the text is returned as it is.
pub fn replace(text: &str, from: &str, to: &str) -> (r: String)
    ensures
        r@ == replaced(text@, from@, to@),
{
    if from.unicode_len() == 0 {
        String::from_str(text)
    } else {
        std_replace(text, from, to)
    }
}

/// A text with every match of a pattern replaced; the text itself where the
/// engine rejects the pattern.
pub open spec fn pattern_replaced(pattern: Seq<char>, text: Seq<char>, replacement: Seq<char>) -> Seq<
    char,
> {
    match regex_replace_spec(pattern, text, replacement) {
        Some(out) => out,
        None => text,
    }
}

/// Replaces every match of a pattern in a text.
pub fn replace_pattern(pattern: &str, text: &str, replacement: &str) -> (r: String)
    ensures
        r@ == pattern_replaced(pattern@, text@, replacement@),
{
    match regex_replace(pattern, text, replacement) {
        Some(out) => out,
        None => String::from_str(text),
    }
}

} // verus!

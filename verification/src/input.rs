//! Reading what the player typed: a line of text becomes a decision.

use vstd::prelude::*;
use vstd::string::StringExecFns;
use crate::game::Decision;

verus! {

/// The text without the white space at its two ends.
pub uninterp spec fn trimmed(text: Seq<char>) -> Seq<char>;

/// The text with every character in lower case.
pub uninterp spec fn lowercased(text: Seq<char>) -> Seq<char>;

/// Calls `str::trim`: the result is the text without leading and trailing
/// white space, which `trimmed` names.
#[verifier::external_body]
fn trim_text<'a>(text: &'a str) -> (word: &'a str)
    ensures
        word@ == trimmed(text@),
{
    text.trim()
}

/// Calls `str::to_lowercase`: the result is the lower-case form of the
/// text, which `lowercased` names.
#[verifier::external_body]
fn lowercase_text(text: &str) -> (word: String)
    ensures
        word@ == lowercased(text@),
{
    text.to_lowercase()
}

/// What is left of a line once the white space round it is gone and it is
/// in lower case.
pub open spec fn normalized(line: Seq<char>) -> Seq<char> {
    lowercased(trimmed(line))
}

/// The decision that a word stands for: `h` is a hit, `s` a stand, and
/// anything else is no decision.
pub open spec fn decision_of(word: Seq<char>) -> Option<Decision> {
    if word == "h"@ {
        Some(Decision::Hit)
    } else if word == "s"@ {
        Some(Decision::Stand)
    } else {
        None
    }
}

/// Whether two texts are the same.
fn same_text(a: &str, b: &str) -> (same: bool)
    ensures
        same == (a@ == b@),
{
    String::from_str(a) == String::from_str(b)
}

/// Reads a word as a decision.
pub fn decision_from_word(word: &str) -> (decision: Option<Decision>)
    ensures
        decision == decision_of(word@),
{
    if same_text(word, "h") {
        Some(Decision::Hit)
    } else if same_text(word, "s") {
        Some(Decision::Stand)
    } else {
        None
    }
}

/// Reads a line that the player typed as a decision, whatever its case and
/// the white space round it.
pub fn parse_decision(line: &str) -> (decision: Option<Decision>)
    ensures
        decision == decision_of(normalized(line@)),
{
    let word = lowercase_text(trim_text(line));
    decision_from_word(word.as_str())
}

/// Whether a word is the answer `y`.
pub fn is_yes(word: &str) -> (yes: bool)
    ensures
        yes == (word@ == "y"@),
{
    same_text(word, "y")
}

/// Whether the line that the player typed asks for another round: `y`,
/// whatever its case and the white space round it.
pub fn wants_another_round(line: &str) -> (again: bool)
    ensures
        again == (normalized(line@) == "y"@),
{
    let word = lowercase_text(trim_text(line));
    is_yes(word.as_str())
}

} // verus!

//! How an answer to a yes-or-no question is read.

use vstd::prelude::*;
use vstd::string::*;

verus! {

/// `text` in lower case, as `str::to_lowercase` gives it.
pub uninterp spec fn lowercase(text: Seq<char>) -> Seq<char>;

/// Whether `text` says yes: in lower case it is `yes` or `y`.
pub open spec fn says_yes(text: Seq<char>) -> bool {
    lowercase(text) == "yes"@ || lowercase(text) == "y"@
}

/// Whether `text` is an answer at all: in lower case it is `y`, `yes`, `n`
/// or `no`.
pub open spec fn says_yes_or_no(text: Seq<char>) -> bool {
    lowercase(text) == "y"@ || lowercase(text) == "yes"@ || lowercase(text) == "n"@ || lowercase(
        text,
    ) == "no"@
}

/// `str::to_lowercase`: a new string that holds `text` in lower case.
#[verifier::external_body]
fn to_lowercase(text: &str) -> (lower: String)
    ensures
        lower@ == lowercase(text@),
{
    text.to_lowercase()
}

/// Whether `text` and `word` hold the same characters.
fn same_text(text: &String, word: &str) -> (same: bool)
    ensures
        same == (text@ == word@),
{
    let other = String::from_str(word);
    *text == other
}

/// An answer that a user typed.
pub trait CmdResponse {
    /// Whether the answer is a yes. Whatever is no yes counts as a no.
    fn is_yes(&self) -> bool;
}

impl CmdResponse for String {
    fn is_yes(&self) -> (yes: bool)
        ensures
            yes == says_yes(self@),
    {
        let lower = to_lowercase(self.as_str());
        same_text(&lower, "yes") || same_text(&lower, "y")
    }
}

/// Whether `s` answers a yes-or-no question: see [`says_yes_or_no`].
pub fn validate_yn(s: &String) -> (valid: bool)
    ensures
        valid == says_yes_or_no(s@),
{
    let lower = to_lowercase(s.as_str());
    same_text(&lower, "y") || same_text(&lower, "yes") || same_text(&lower, "n") || same_text(
        &lower,
        "no",
    )
}

} // verus!

//! Caseless comparison of texts and splitting of a command line into words.

use vstd::prelude::*;
use vstd::string::*;
use unicode_normalization::UnicodeNormalization;

verus! {

#[verifier::external_type_specification]
#[verifier::external_body]
pub struct ExParseError(shell_words::ParseError);

/// The compatibility decomposition (form NFKD) of a text.
pub uninterp spec fn nfkd_of(text: Seq<char>) -> Seq<char>;

/// A text in lower case, by the rules of Unicode.
pub uninterp spec fn lowercase_of(text: Seq<char>) -> Seq<char>;

/// The words of a command line by the rules of a POSIX shell; `None` where
/// a quote is left open.
pub uninterp spec fn shell_words_of(line: Seq<char>) -> Option<Seq<Seq<char>>>;

/// The texts that a sequence of strings holds.
pub open spec fn texts_of(words: Seq<String>) -> Seq<Seq<char>> {
    Seq::new(words.len(), |i: int| words[i]@)
}

/// The form in which two texts are compared without regard to case.
pub open spec fn caseless_form(text: Seq<char>) -> Seq<char> {
    lowercase_of(nfkd_of(text))
}

/// Trusted: `unicode_normalization::UnicodeNormalization::nfkd` on a string
/// slice, its characters collected into a string. The contract names the
/// result.
#[verifier::external_body]
fn decompose(text: &str) -> (decomposed: String)
    ensures
        decomposed@ == nfkd_of(text@),
{
    text.nfkd().collect::<String>()
}

/// Trusted: `str::to_lowercase` of std. The contract names the result.
#[verifier::external_body]
fn lowercase(text: &str) -> (lowered: String)
    ensures
        lowered@ == lowercase_of(text@),
{
    text.to_lowercase()
}

/// Trusted: `shell_words::split`. The contract names the outcome: an error
/// exactly where the line has no words by the shell's rules, else the words
/// in their order.
#[verifier::external_body]
fn split_words(line: &str) -> (words: Result<Vec<String>, shell_words::ParseError>)
    ensures
        words.is_ok() == shell_words_of(line@).is_some(),
        words.is_ok() ==> shell_words_of(line@) == Some(texts_of(words.unwrap()@)),
{
    shell_words::split(line)
}

/// The caseless form of a text: decomposed, then in lower case.
pub fn sme_utils_normalize_caseless(text: &str) -> (form: String)
    ensures
        form@ == caseless_form(text@),
{
    let decomposed = decompose(text);
    lowercase(decomposed.as_str())
}

/// Whether two texts are equal but for case and for the way their
/// characters are composed.
pub fn sme_utils_is_equal_caseless(left: &str, right: &str) -> (equal: bool)
    ensures
        equal == (caseless_form(left@) == caseless_form(right@)),
{
    let left_form = sme_utils_normalize_caseless(left);
    let right_form = sme_utils_normalize_caseless(right);
    left_form == right_form
}

/// What `sme_utils_shellwords` makes of the outcome of the split: the words,
/// or no words at all where the split failed.
pub fn words_or_none(words: Result<Vec<String>, shell_words::ParseError>) -> (list: Vec<String>)
    ensures
        words.is_ok() ==> list == words.unwrap(),
        words.is_err() ==> list@.len() == 0,
{
    match words {
        Ok(list) => list,
        Err(_) => Vec::new(),
    }
}

/// The words of a command line; no words where the line cannot be split.
pub fn sme_utils_shellwords(text: &str) -> (words: Vec<String>)
    ensures
        texts_of(words@) == match shell_words_of(text@) {
            Some(list) => list,
            None => Seq::<Seq<char>>::empty(),
        },
{
    let words = words_or_none(split_words(text));
    assert(texts_of(words@) =~= match shell_words_of(text@) {
        Some(list) => list,
        None => Seq::<Seq<char>>::empty(),
    });
    words
}

} // verus!

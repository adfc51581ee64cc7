//! Human-readable experiment names: three random words from a fixed word
//! list, joined by hyphens.
use vstd::prelude::*;

verus! {

use crate::chars::{chars_to_string, str_to_chars};

pub open spec fn word_char(c: char) -> bool {
    ('a' <= c && c <= 'z') || c == '-'
}

/// A word as the word list has them: nonempty, lowercase letters with at
/// most an inner hyphen, starting and ending with a letter.
pub open spec fn wordlike(s: Seq<char>) -> bool {
    &&& s.len() > 0
    &&& forall|i: int| 0 <= i < s.len() ==> word_char(#[trigger] s[i])
    &&& 'a' <= s[0] && s[0] <= 'z'
    &&& 'a' <= s[s.len() - 1] && s[s.len() - 1] <= 'z'
}

/// Relies on `eff_wordlist::short::random_word`: it picks a word of the
/// crate's short word list, and every word of that list is nonempty and
/// made of lowercase letters with at most an inner hyphen. The pick is
/// random, so no more is promised.
#[verifier::external_body]
fn random_short_word() -> (r: String)
    ensures
        wordlike(r@),
{
    eff_wordlist::short::random_word().to_string()
}

pub open spec fn joined3(a: Seq<char>, b: Seq<char>, c: Seq<char>) -> Seq<char> {
    a + seq!['-'] + b + seq!['-'] + c
}

/// The shape of a generated experiment name: three words joined by hyphens.
pub open spec fn generated_name(s: Seq<char>) -> bool {
    exists|a: Seq<char>, b: Seq<char>, c: Seq<char>|
        wordlike(a) && wordlike(b) && wordlike(c) && s == #[trigger] joined3(a, b, c)
}

/// Draw three random words and join them by hyphens.
pub fn create_experiment_name() -> (r: String)
    ensures
        generated_name(r@),
{
    let w1 = random_short_word();
    let w2 = random_short_word();
    let w3 = random_short_word();
    let mut out = str_to_chars(w1.as_str());
    let mut rest = str_to_chars(w2.as_str());
    out.push('-');
    out.append(&mut rest);
    out.push('-');
    let mut last = str_to_chars(w3.as_str());
    out.append(&mut last);
    proof {
        assert(out@ =~= joined3(w1@, w2@, w3@));
    }
    chars_to_string(&out)
}

} // verus!

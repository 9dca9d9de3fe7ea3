//! Word-count limits for description texts.
use vstd::prelude::*;
use crate::text::{char_is_space, chars_of, is_space};

verus! {

/// Largest number of words of a short description.
pub const SHORT_MAX_WORDS: usize = 30;

/// Largest number of words of a context paragraph.
pub const CONTEXT_MAX_WORDS: usize = 40;

/// Why a text was refused.
#[derive(Debug, PartialEq, Eq, Structural)]
pub enum ValidationError {
    /// The text has this many words, over this limit.
    TooManyWords(usize, usize),
}

/// The number of words of `s`: maximal runs of characters that are not
/// whitespace.
pub open spec fn words(s: Seq<char>) -> nat
    decreases s.len(),
{
    if s.len() == 0 {
        0
    } else {
        let starts = !is_space(s.last()) && (s.len() == 1 || is_space(s[s.len() - 2]));
        words(s.drop_last()) + if starts {
            1nat
        } else {
            0nat
        }
    }
}

proof fn lemma_words_bound(s: Seq<char>)
    ensures
        words(s) <= s.len(),
    decreases s.len(),
{
    if s.len() > 0 {
        lemma_words_bound(s.drop_last());
    }
}

/// Counts the whitespace-separated words of `s`.
pub fn word_count(s: &str) -> (r: usize)
    ensures
        r == words(s@),
{
    let t = chars_of(s);
    let mut n: usize = 0;
    let mut i: usize = 0;
    while i < t.len()
        invariant
            i <= t@.len(),
            t@ == s@,
            n == words(t@.take(i as int)),
        decreases t@.len() - i,
    {
        proof {
            assert(t@.take(i + 1).drop_last() =~= t@.take(i as int));
            lemma_words_bound(t@.take(i as int));
        }
        if !char_is_space(t[i]) && (i == 0 || char_is_space(t[i - 1])) {
            n += 1;
        }
        i += 1;
    }
    assert(t@.take(i as int) =~= t@);
    n
}

/// The verdict on a text of `count` words under a limit of `max` words.
pub open spec fn limit_verdict(count: nat, max: usize) -> Result<(), ValidationError> {
    if count <= max {
        Ok(())
    } else {
        Err(ValidationError::TooManyWords(count as usize, max))
    }
}

/// Accepts a short description of at most 30 words.
pub fn validate_short(s: &str) -> (r: Result<(), ValidationError>)
    ensures
        r == limit_verdict(words(s@), SHORT_MAX_WORDS),
{
    let c = word_count(s);
    if c <= SHORT_MAX_WORDS {
        Ok(())
    } else {
        Err(ValidationError::TooManyWords(c, SHORT_MAX_WORDS))
    }
}

/// Accepts a context paragraph of at most 40 words.
pub fn validate_context(s: &str) -> (r: Result<(), ValidationError>)
    ensures
        r == limit_verdict(words(s@), CONTEXT_MAX_WORDS),
{
    let c = word_count(s);
    if c <= CONTEXT_MAX_WORDS {
        Ok(())
    } else {
        Err(ValidationError::TooManyWords(c, CONTEXT_MAX_WORDS))
    }
}

} // verus!

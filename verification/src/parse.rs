//! The result of factorizing one sequence.

use crate::model::ParseView;
use vstd::prelude::*;

verus! {

/// What the factorization engine yields for one sequence: the fingerprints of
/// its phrases in order, their lengths in the same order, and the two phrases
/// that anchor the factorization at the sequence's ends.
#[derive(Debug)]
pub struct SequenceParseResult {
    /// The fingerprints of the phrases, in the order of the parse.
    pub phrases: Vec<u64>,
    /// The lengths of those phrases, in the same order.
    pub phrases_len: Vec<u32>,
    /// The phrase anchored at the start of the sequence.
    pub prefix: (u64, u32),
    /// The phrase anchored at the end of the sequence.
    pub suffix: (u64, u32),
}

impl View for SequenceParseResult {
    type V = ParseView;

    open spec fn view(&self) -> ParseView {
        ParseView {
            phrases: self.phrases@,
            phrases_len: self.phrases_len@,
            prefix: self.prefix,
            suffix: self.suffix,
        }
    }
}

impl SequenceParseResult {
    /// Puts the four parts of a parse together.
    pub fn new(
        phrases: Vec<u64>,
        phrases_len: Vec<u32>,
        prefix: (u64, u32),
        suffix: (u64, u32),
    ) -> (p: Self)
        ensures
            p.phrases == phrases,
            p.phrases_len == phrases_len,
            p.prefix == prefix,
            p.suffix == suffix,
    {
        SequenceParseResult { phrases, phrases_len, prefix, suffix }
    }

    /// The number of phrases that come with a length.
    pub fn paired_len(&self) -> (n: usize)
        ensures
            n == self@.paired().len(),
    {
        if self.phrases.len() <= self.phrases_len.len() {
            self.phrases.len()
        } else {
            self.phrases_len.len()
        }
    }

    /// The `i`-th phrase with its length.
    pub fn paired_at(&self, i: usize) -> (e: (u64, u32))
        requires
            i < self@.paired().len(),
        ensures
            e == self@.paired()[i as int],
    {
        (self.phrases[i], self.phrases_len[i])
    }
}

} // verus!

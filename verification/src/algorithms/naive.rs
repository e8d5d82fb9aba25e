use vstd::prelude::*;

use crate::Guess;
use crate::Guesser;

verus! {

/// A placeholder strategy with no guessing logic of its own. A real
/// strategy replaces it; the engine's contract is what this crate proves.
pub struct Naive;

impl Naive {
    /// A fresh placeholder strategy.
    pub fn new() -> Naive {
        Naive
    }
}

impl Guesser for Naive {
    /// Always proposes the empty string, which the engine rejects as a word
    /// outside the dictionary on the first attempt.
    fn guess(&mut self, _history: &[Guess]) -> String {
        String::new()
    }
}

} // verus!

use vstd::prelude::*;

pub mod algorithms;
pub mod feedback;

pub use feedback::Correctness;

verus! {

/// How many guesses a game allows before it counts as unsolved. Larger
/// than the canonical six, so that score distributions are not cut off.
pub const MAX_GUESSES: usize = 32;

/// One scored attempt: the guessed word together with its feedback mask.
pub struct Guess {
    pub word: String,
    pub mask: [Correctness; 5],
}

/// A guessing strategy: given the ordered history of scored attempts of the
/// current game, it proposes the next word. A fresh instance serves one game.
pub trait Guesser {
    fn guess(&mut self, history: &[Guess]) -> String;
}

/// A strategy broke its contract: it proposed a word that is neither the
/// answer nor a member of the dictionary.
pub struct GameError {
    pub guess: String,
}

/// What the engine concludes about one proposed guess.
pub enum Verdict {
    /// The guess is the answer: the game is won.
    Win,
    /// The guess is not the answer and not a dictionary word.
    IllegalGuess,
    /// The guess is a valid word but not the answer; here is its feedback.
    Scored([Correctness; 5]),
}

/// The game engine: a fixed dictionary of valid five-letter words, built
/// once, and read-only afterwards.
pub struct Wordle {
    dictionary: Vec<String>,
}

impl Wordle {
    /// The dictionary's words, each as its character sequence.
    pub closed spec fn words(&self) -> Seq<Seq<char>> {
        self.dictionary@.map_values(|w: String| w@)
    }

    /// Every dictionary word is exactly five letters long.
    pub open spec fn well_formed(&self) -> bool {
        forall|k: int| 0 <= k < self.words().len() ==> (#[trigger] self.words()[k]).len() == 5
    }

    /// Whether the dictionary holds the word `w`.
    pub open spec fn spec_contains(&self, w: Seq<char>) -> bool {
        exists|k: int| 0 <= k < self.words().len() && self.words()[k] == w
    }

    /// An engine over the given dictionary of five-letter words.
    pub fn new(dictionary: Vec<String>) -> (w: Wordle)
        requires
            forall|k: int| 0 <= k < dictionary@.len() ==> (#[trigger] dictionary@[k])@.len() == 5,
        ensures
            w.well_formed(),
            w.words() == dictionary@.map_values(|s: String| s@),
    {
        Wordle { dictionary }
    }

    /// Whether `word` is a member of the dictionary.
    pub fn contains(&self, word: &String) -> (r: bool)
        ensures
            r == self.spec_contains(word@),
    {
        let mut k: usize = 0;
        while k < self.dictionary.len()
            invariant
                k <= self.dictionary.len(),
                forall|m: int| 0 <= m < k ==> self.words()[m] != word@,
            decreases self.dictionary.len() - k,
        {
            if self.dictionary[k] == *word {
                assert(self.words()[k as int] == word@);
                return true;
            }
            k += 1;
        }
        false
    }

    /// The engine's judgement of one guess: a win when it is the answer, a
    /// contract violation when it is not even a dictionary word, and a
    /// feedback mask otherwise.
    pub fn check_guess(&self, answer: &String, guess: &String) -> (v: Verdict)
        requires
            self.well_formed(),
            answer@.len() == 5,
        ensures
            match v {
                Verdict::Win => guess@ == answer@,
                Verdict::IllegalGuess => guess@ != answer@ && !self.spec_contains(guess@),
                Verdict::Scored(mask) => guess@ != answer@ && self.spec_contains(guess@)
                    && mask@ == feedback::spec_compute(answer@, guess@),
            },
    {
        if *guess == *answer {
            return Verdict::Win;
        }
        if !self.contains(guess) {
            return Verdict::IllegalGuess;
        }
        proof {
            let k = choose|k: int| 0 <= k < self.words().len() && self.words()[k] == guess@;
            assert(self.words()[k].len() == 5);
        }
        Verdict::Scored(Correctness::compute(answer.as_str(), guess.as_str()))
    }

    /// One full game: ask the strategy for a guess, judge it, append the
    /// scored attempt to the history, and repeat, up to `MAX_GUESSES` times.
    /// `Ok(Some(n))` reports a win at attempt `n`; `Ok(None)` reports an
    /// unsolved game; `Err` reports a strategy that proposed a word outside
    /// the dictionary, carrying the offending guess.
    pub fn play<G: Guesser>(&self, answer: &str, guesser: G) -> (r: Result<
        Option<usize>,
        GameError,
    >)
        requires
            self.well_formed(),
            answer@.len() == 5,
        ensures
            match r {
                Ok(outcome) => (outcome matches Some(n) ==> 1 <= n <= MAX_GUESSES),
                Err(e) => e.guess@ != answer@ && !self.spec_contains(e.guess@),
            },
    {
        let mut guesser = guesser;
        let answer_owned: String = answer.to_owned();
        let mut history: Vec<Guess> = Vec::new();
        let mut attempt: usize = 1;
        while attempt <= MAX_GUESSES
            invariant
                self.well_formed(),
                answer_owned@ == answer@,
                answer@.len() == 5,
                1 <= attempt <= MAX_GUESSES + 1,
            decreases MAX_GUESSES + 1 - attempt,
        {
            let guess = guesser.guess(history.as_slice());
            match self.check_guess(&answer_owned, &guess) {
                Verdict::Win => {
                    return Ok(Some(attempt));
                },
                Verdict::IllegalGuess => {
                    return Err(GameError { guess });
                },
                Verdict::Scored(mask) => {
                    history.push(Guess { word: guess, mask });
                },
            }
            attempt += 1;
        }
        Ok(None)
    }
}

} // verus!

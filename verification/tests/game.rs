use wordle_solver::algorithms::Naive;
use wordle_solver::Correctness;
use wordle_solver::Guess;
use wordle_solver::Guesser;
use wordle_solver::Wordle;
use wordle_solver::MAX_GUESSES;

fn dict(words: &[&str]) -> Vec<String> {
    let mut v = Vec::new();
    for w in words {
        v.push(w.to_string());
    }
    v
}

/// Always proposes the true answer.
struct Truthful {
    answer: String,
}

impl Guesser for Truthful {
    fn guess(&mut self, _history: &[Guess]) -> String {
        self.answer.clone()
    }
}

/// Always proposes one fixed word.
struct Fixed {
    word: String,
}

impl Guesser for Fixed {
    fn guess(&mut self, _history: &[Guess]) -> String {
        self.word.clone()
    }
}

/// Proposes a fixed dictionary word until call number `winning_call`, and
/// the answer from then on. Checks that the history grows by one scored
/// attempt per call.
struct WinsAt {
    winning_call: usize,
    calls: usize,
    answer: String,
    filler: String,
}

impl Guesser for WinsAt {
    fn guess(&mut self, history: &[Guess]) -> String {
        assert_eq!(history.len(), self.calls);
        if let Some(last) = history.last() {
            assert_eq!(last.word, self.filler);
            assert_eq!(last.mask, Correctness::compute(&self.answer, &self.filler));
        }
        self.calls += 1;
        if self.calls >= self.winning_call {
            self.answer.clone()
        } else {
            self.filler.clone()
        }
    }
}

#[test]
fn play() {
    let wordle = Wordle::new(vec![]);
    let _ = wordle;
}

#[test]
fn first_call_answer_wins_in_one() {
    let wordle = Wordle::new(dict(&["crane", "slate"]));
    let guesser = Truthful { answer: "crane".to_string() };
    let outcome = wordle.play("crane", guesser);
    assert!(matches!(outcome, Ok(Some(1))));
}

#[test]
fn answer_needs_no_dictionary_membership() {
    let wordle = Wordle::new(dict(&["slate"]));
    let guesser = Truthful { answer: "crane".to_string() };
    let outcome = wordle.play("crane", guesser);
    assert!(matches!(outcome, Ok(Some(1))));
}

#[test]
fn never_correct_is_unsolved() {
    let wordle = Wordle::new(dict(&["crane", "slate"]));
    let guesser = Fixed { word: "slate".to_string() };
    let outcome = wordle.play("crane", guesser);
    assert!(matches!(outcome, Ok(None)));
}

#[test]
fn win_on_last_allowed_attempt() {
    let wordle = Wordle::new(dict(&["crane", "slate"]));
    let guesser = WinsAt {
        winning_call: MAX_GUESSES,
        calls: 0,
        answer: "crane".to_string(),
        filler: "slate".to_string(),
    };
    let outcome = wordle.play("crane", guesser);
    assert!(matches!(outcome, Ok(Some(n)) if n == MAX_GUESSES));
}

#[test]
fn win_one_attempt_past_budget_is_unsolved() {
    let wordle = Wordle::new(dict(&["crane", "slate"]));
    let guesser = WinsAt {
        winning_call: MAX_GUESSES + 1,
        calls: 0,
        answer: "crane".to_string(),
        filler: "slate".to_string(),
    };
    let outcome = wordle.play("crane", guesser);
    assert!(matches!(outcome, Ok(None)));
}

#[test]
fn guess_outside_dictionary_aborts_at_once() {
    let wordle = Wordle::new(dict(&["crane", "slate"]));
    let guesser = Fixed { word: "zzzzz".to_string() };
    match wordle.play("crane", guesser) {
        Err(e) => assert_eq!(e.guess, "zzzzz"),
        _ => panic!("an illegal guess must abort the game"),
    }
}

#[test]
fn naive_placeholder_aborts_as_illegal() {
    let wordle = Wordle::new(dict(&["crane"]));
    match wordle.play("crane", Naive::new()) {
        Err(e) => assert_eq!(e.guess, ""),
        _ => panic!("the placeholder proposes no dictionary word"),
    }
}

#[test]
fn empty_dictionary_rejects_every_wrong_guess() {
    let wordle = Wordle::new(vec![]);
    let guesser = Fixed { word: "slate".to_string() };
    match wordle.play("crane", guesser) {
        Err(e) => assert_eq!(e.guess, "slate"),
        _ => panic!("no guess can be legal against an empty dictionary"),
    }
}

#[test]
fn contains_finds_only_members() {
    let wordle = Wordle::new(dict(&["crane", "slate"]));
    assert!(wordle.contains(&"crane".to_string()));
    assert!(wordle.contains(&"slate".to_string()));
    assert!(!wordle.contains(&"zzzzz".to_string()));
    assert!(!wordle.contains(&"".to_string()));
}

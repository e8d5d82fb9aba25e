use wordle_solver::Correctness;

const C: Correctness = Correctness::Correct;
const M: Correctness = Correctness::Misplaced;
const W: Correctness = Correctness::Wrong;

#[test]
fn all_green() {
    assert_eq!(Correctness::compute("abcde", "abcde"), [C, C, C, C, C]);
}

#[test]
fn all_yellow() {
    assert_eq!(Correctness::compute("abcde", "bcdea"), [M, M, M, M, M]);
}

#[test]
fn all_gray() {
    assert_eq!(Correctness::compute("abcde", "fghij"), [W, W, W, W, W]);
}

#[test]
fn repeat_green() {
    assert_eq!(Correctness::compute("aabbb", "aaccc"), [C, C, W, W, W]);
}

#[test]
fn repeat_yellow() {
    assert_eq!(Correctness::compute("aabbb", "ccaac"), [W, W, M, M, W]);
}

#[test]
fn repeat_some_green() {
    assert_eq!(Correctness::compute("aabbb", "acaac"), [C, W, M, W, W]);
}

#[test]
fn anagram_with_some_greens() {
    assert_eq!(Correctness::compute("abcde", "abced"), [C, C, C, M, M]);
}

#[test]
fn excess_duplicates_go_gray() {
    assert_eq!(Correctness::compute("azzzz", "aaaaa"), [C, W, W, W, W]);
}

#[test]
fn earlier_green_consumes_the_only_slot() {
    assert_eq!(Correctness::compute("baaaa", "bbbbb"), [C, W, W, W, W]);
}

use vstd::prelude::*;

verus! {

use vstd::std_specs::iter::IteratorSpec;

/// Per-position feedback for one letter of a guess: the letter matches the
/// answer at that position, occurs elsewhere in the answer, or is absent
/// (or all of its occurrences are already accounted for).
#[derive(Debug, Clone, Copy, PartialEq, Eq, Structural)]
pub enum Correctness {
    /// Green: the letter stands at the right position.
    Correct,
    /// Yellow: the letter occurs in the answer, at another position.
    Misplaced,
    /// Gray: the letter is absent, or already consumed by earlier credit.
    Wrong,
}

/// Which answer slots the first pass consumes: slot `i` is taken exactly
/// when the guess letter at `i` equals the answer letter at `i`.
pub open spec fn exact_mask(answer: Seq<char>, guess: Seq<char>) -> Seq<bool> {
    Seq::new(answer.len(), |i: int| answer[i] == guess[i])
}

/// The leftmost answer slot at or after `j` that holds letter `c` and is
/// not yet consumed, if any.
pub open spec fn first_free_slot(answer: Seq<char>, used: Seq<bool>, c: char, j: int) -> Option<int>
    decreases answer.len() - j,
{
    if j < 0 || j >= answer.len() {
        None
    } else if answer[j] == c && !used[j] {
        Some(j)
    } else {
        first_free_slot(answer, used, c, j + 1)
    }
}

/// The consumed-slot state just before the second pass handles position `i`:
/// the exact matches, plus one slot per earlier misplaced letter.
pub open spec fn consumed_before(answer: Seq<char>, guess: Seq<char>, i: int) -> Seq<bool>
    decreases i,
{
    if i <= 0 {
        exact_mask(answer, guess)
    } else {
        let prev = consumed_before(answer, guess, i - 1);
        if answer[i - 1] == guess[i - 1] {
            prev
        } else {
            match first_free_slot(answer, prev, guess[i - 1], 0) {
                Some(j) => prev.update(j, true),
                None => prev,
            }
        }
    }
}

/// The feedback for position `i` of the guess: an exact match is Correct;
/// otherwise the letter is Misplaced when an unconsumed slot still offers
/// it, and Wrong when none does.
pub open spec fn feedback_at(answer: Seq<char>, guess: Seq<char>, i: int) -> Correctness {
    if answer[i] == guess[i] {
        Correctness::Correct
    } else if first_free_slot(answer, consumed_before(answer, guess, i), guess[i], 0) is Some {
        Correctness::Misplaced
    } else {
        Correctness::Wrong
    }
}

/// The whole feedback mask for a guess against an answer.
pub open spec fn spec_compute(answer: Seq<char>, guess: Seq<char>) -> Seq<Correctness> {
    Seq::new(guess.len(), |i: int| feedback_at(answer, guess, i))
}

/// `first_free_slot` ignores a prefix that offers no free slot for `c`.
proof fn lemma_first_slot_skip(answer: Seq<char>, used: Seq<bool>, c: char, j: int)
    requires
        0 <= j <= answer.len(),
        forall|k: int| 0 <= k < j ==> !(answer[k] == c && !used[k]),
    ensures
        first_free_slot(answer, used, c, 0) == first_free_slot(answer, used, c, j),
    decreases j,
{
    if j > 0 {
        lemma_first_slot_skip(answer, used, c, j - 1);
    }
}

/// A slot found by `first_free_slot` lies in range, holds `c`, is free, and
/// is the leftmost such slot at or after `j`.
proof fn lemma_first_slot_found(answer: Seq<char>, used: Seq<bool>, c: char, j: int)
    requires
        first_free_slot(answer, used, c, j) is Some,
    ensures
        ({
            let k = first_free_slot(answer, used, c, j)->0;
            &&& j <= k < answer.len()
            &&& answer[k] == c
            &&& !used[k]
            &&& forall|m: int| j <= m < k ==> !(answer[m] == c && !used[m])
        }),
    decreases answer.len() - j,
{
    if !(j < 0 || j >= answer.len()) && !(answer[j] == c && !used[j]) {
        lemma_first_slot_found(answer, used, c, j + 1);
    }
}

/// When no slot at or after `j` offers `c` freely, none is found.
proof fn lemma_first_slot_none(answer: Seq<char>, used: Seq<bool>, c: char, j: int)
    requires
        forall|m: int| j <= m < answer.len() ==> !(answer[m] == c && !used[m]),
    ensures
        first_free_slot(answer, used, c, j) is None,
    decreases answer.len() - j,
{
    if !(j < 0 || j >= answer.len()) {
        lemma_first_slot_none(answer, used, c, j + 1);
    }
}

/// The characters of a string, as an indexable vector with the same view.
fn chars_of(s: &str) -> (v: Vec<char>)
    ensures
        v@ == s@,
{
    broadcast use vstd::string::axiom_spec_iter, vstd::string::next_postcondition;

    let mut it = s.chars();
    let mut v: Vec<char> = Vec::new();
    loop
        invariant
            v@ + it.remaining() =~= s@,
            it.decrease() is Some,
        ensures
            v@ == s@,
        decreases it.decrease()->0,
    {
        match it.next() {
            Some(c) => {
                v.push(c);
            },
            None => {
                break ;
            },
        }
    }
    v
}

impl Correctness {
    /// The feedback mask for `guess` against `answer`: exact matches first,
    /// then misplaced letters against the remaining unconsumed slots,
    /// left to right, so that no answer letter is credited twice.
    #[verifier::loop_isolation(false)]
    pub fn compute(answer: &str, guess: &str) -> (r: [Correctness; 5])
        requires
            answer@.len() == 5,
            guess@.len() == 5,
        ensures
            r@ == spec_compute(answer@, guess@),
    {
        let a = chars_of(answer);
        let g = chars_of(guess);
        let mut used: Vec<bool> = Vec::new();
        for i in 0..5
            invariant
                a@ == answer@,
                g@ == guess@,
                a@.len() == 5,
                g@.len() == 5,
                used@.len() == i,
                forall|k: int| 0 <= k < i ==> used@[k] == (a@[k] == g@[k]),
        {
            used.push(a[i] == g[i]);
        }
        proof {
            assert(used@ =~= exact_mask(answer@, guess@));
        }
        let mut cor: [Correctness; 5] = [
            Correctness::Wrong,
            Correctness::Wrong,
            Correctness::Wrong,
            Correctness::Wrong,
            Correctness::Wrong,
        ];
        for i in 0..5
            invariant
                a@ == answer@,
                g@ == guess@,
                a@.len() == 5,
                g@.len() == 5,
                used@.len() == 5,
                used@ == consumed_before(answer@, guess@, i as int),
                forall|k: int| 0 <= k < i ==> cor@[k] == feedback_at(answer@, guess@, k),
        {
            if a[i] == g[i] {
                cor[i] = Correctness::Correct;
                assert(consumed_before(answer@, guess@, i + 1) == used@);
            } else {
                let ghost used0 = used@;
                let mut j: usize = 0;
                let mut found: bool = false;
                while j < 5 && !found
                    invariant
                        j <= 5,
                        forall|k: int| 0 <= k < j ==> !(a@[k] == g@[i as int] && !used0[k]),
                        !found ==> used@ == used0,
                        found ==> (j < 5 && a@[j as int] == g@[i as int] && !used0[j as int]
                            && used@ == used0.update(j as int, true)),
                    decreases 5 - j, (if found { 0int } else { 1int }),
                {
                    if a[j] == g[i] && !used[j] {
                        used[j] = true;
                        found = true;
                    } else {
                        j += 1;
                    }
                }
                proof {
                    if found {
                        lemma_first_slot_skip(answer@, used0, g@[i as int], j as int);
                        assert(first_free_slot(answer@, used0, g@[i as int], 0) == Some(
                            j as int,
                        ));
                    } else {
                        lemma_first_slot_none(answer@, used0, g@[i as int], 0);
                    }
                }
                if found {
                    cor[i] = Correctness::Misplaced;
                } else {
                    cor[i] = Correctness::Wrong;
                }
            }
        }
        proof {
            assert(cor@ =~= spec_compute(answer@, guess@));
        }
        cor
    }
}

/// Guessing the answer itself earns Correct at every position.
pub proof fn lemma_guess_equals_answer_all_correct(w: Seq<char>)
    ensures
        spec_compute(w, w).len() == w.len(),
        forall|i: int| 0 <= i < w.len() ==> spec_compute(w, w)[i] == Correctness::Correct,
{
}

/// A position earns Correct exactly when guess and answer agree there.
pub proof fn lemma_correct_iff_exact_match(answer: Seq<char>, guess: Seq<char>)
    ensures
        forall|i: int|
            0 <= i < guess.len() ==> ((spec_compute(answer, guess)[i] == Correctness::Correct)
                <==> answer[i] == guess[i]),
{
}

/// A guess that shares no letter with the answer earns Wrong everywhere.
pub proof fn lemma_disjoint_letters_all_wrong(answer: Seq<char>, guess: Seq<char>)
    requires
        answer.len() == guess.len(),
        forall|i: int, j: int|
            0 <= i < answer.len() && 0 <= j < guess.len() ==> answer[i] != guess[j],
    ensures
        spec_compute(answer, guess).len() == guess.len(),
        forall|i: int| 0 <= i < guess.len() ==> spec_compute(answer, guess)[i] == Correctness::Wrong,
{
    assert forall|i: int| 0 <= i < guess.len() implies spec_compute(answer, guess)[i]
        == Correctness::Wrong by {
        lemma_first_slot_none(answer, consumed_before(answer, guess, i), guess[i], 0);
    }
}

/// How many occurrences of `c` the suffix `s[j..]` holds.
pub open spec fn letter_count_from(s: Seq<char>, c: char, j: int) -> nat
    decreases s.len() - j,
{
    if j < 0 || j >= s.len() {
        0
    } else {
        (if s[j] == c {
            1nat
        } else {
            0nat
        }) + letter_count_from(s, c, j + 1)
    }
}

/// How many occurrences of `c` the word holds.
pub open spec fn letter_count(s: Seq<char>, c: char) -> nat {
    letter_count_from(s, c, 0)
}

/// Two words of one length that hold every letter equally often.
pub open spec fn anagram(a: Seq<char>, b: Seq<char>) -> bool {
    a.len() == b.len() && forall|c: char| #[trigger] letter_count(a, c) == letter_count(b, c)
}

/// Appending a letter raises its count by one and no other count.
proof fn lemma_letter_count_push(t: Seq<char>, a: char, c: char, j: int)
    requires
        0 <= j <= t.len(),
    ensures
        letter_count_from(t.push(a), c, j) == letter_count_from(t, c, j) + (if a == c {
            1nat
        } else {
            0nat
        }),
    decreases t.len() - j,
{
    if j < t.len() {
        lemma_letter_count_push(t, a, c, j + 1);
    } else {
        assert(letter_count_from(t, c, j) == 0);
        assert(t.push(a)[j] == a);
        assert(letter_count_from(t.push(a), c, j + 1) == 0);
    }
}

/// `letter_count` counts exactly what the word's multiset counts.
pub proof fn lemma_letter_count_is_multiset_count(s: Seq<char>, c: char)
    ensures
        letter_count(s, c) == s.to_multiset().count(c),
    decreases s.len(),
{
    broadcast use vstd::seq_lib::group_to_multiset_ensures;
    broadcast use vstd::multiset::group_multiset_axioms;

    if s.len() == 0 {
        assert(!s.contains(c));
    } else {
        let t = s.drop_last();
        lemma_letter_count_is_multiset_count(t, c);
        assert(s =~= t.push(s.last()));
        lemma_letter_count_push(t, s.last(), c, 0);
    }
}

/// Words are anagrams exactly when their letters agree as multisets.
pub proof fn lemma_anagram_iff_multisets_equal(a: Seq<char>, b: Seq<char>)
    requires
        a.len() == b.len(),
    ensures
        anagram(a, b) <==> a.to_multiset() == b.to_multiset(),
{
    broadcast use vstd::multiset::group_multiset_axioms;

    assert forall|c: char| #[trigger] letter_count(a, c) == a.to_multiset().count(c)
        && letter_count(b, c) == b.to_multiset().count(c) by {
        lemma_letter_count_is_multiset_count(a, c);
        lemma_letter_count_is_multiset_count(b, c);
    }
    if anagram(a, b) {
        assert forall|c: char| #[trigger] a.to_multiset().count(c) == b.to_multiset().count(c) by {
            assert(letter_count(a, c) == letter_count(b, c));
        }
        assert(a.to_multiset() =~= b.to_multiset());
    }
}

/// How many slots of `answer[j..]` hold `c` and are not yet consumed.
spec fn free_count(answer: Seq<char>, used: Seq<bool>, c: char, j: int) -> nat
    decreases answer.len() - j,
{
    if j < 0 || j >= answer.len() {
        0
    } else {
        (if answer[j] == c && !used[j] {
            1nat
        } else {
            0nat
        }) + free_count(answer, used, c, j + 1)
    }
}

/// How many positions of `guess[j..]` still ask for letter `c` without an
/// exact match of their own.
spec fn pending_from(answer: Seq<char>, guess: Seq<char>, c: char, j: int) -> nat
    decreases guess.len() - j,
{
    if j < 0 || j >= guess.len() {
        0
    } else {
        (if guess[j] == c && answer[j] != c {
            1nat
        } else {
            0nat
        }) + pending_from(answer, guess, c, j + 1)
    }
}

/// The second pass never changes how many slots the consumed-state covers.
proof fn lemma_consumed_len(answer: Seq<char>, guess: Seq<char>, i: int)
    ensures
        consumed_before(answer, guess, i).len() == answer.len(),
    decreases i,
{
    if i > 0 {
        lemma_consumed_len(answer, guess, i - 1);
        let prev = consumed_before(answer, guess, i - 1);
        if answer[i - 1] != guess[i - 1] && first_free_slot(answer, prev, guess[i - 1], 0)
            is Some {
            lemma_first_slot_found(answer, prev, guess[i - 1], 0);
        }
    }
}

/// A free slot exists exactly when the free-slot count is positive.
proof fn lemma_free_count_pos_iff_some(answer: Seq<char>, used: Seq<bool>, c: char, j: int)
    ensures
        free_count(answer, used, c, j) > 0 <==> first_free_slot(answer, used, c, j) is Some,
    decreases answer.len() - j,
{
    if !(j < 0 || j >= answer.len()) {
        lemma_free_count_pos_iff_some(answer, used, c, j + 1);
    }
}

/// Two consumed-slot states that agree from `j` on give one free-slot count.
proof fn lemma_free_count_same(
    answer: Seq<char>,
    used1: Seq<bool>,
    used2: Seq<bool>,
    c: char,
    j: int,
)
    requires
        forall|m: int| j <= m < answer.len() ==> used1[m] == used2[m],
    ensures
        free_count(answer, used1, c, j) == free_count(answer, used2, c, j),
    decreases answer.len() - j,
{
    if !(j < 0 || j >= answer.len()) {
        lemma_free_count_same(answer, used1, used2, c, j + 1);
    }
}

/// Consuming a free slot that holds `c` lowers the free-slot count for `c`
/// by one.
proof fn lemma_free_count_update(answer: Seq<char>, used: Seq<bool>, c: char, j: int, j0: int)
    requires
        0 <= j <= j0 < answer.len(),
        used.len() == answer.len(),
        answer[j0] == c,
        !used[j0],
    ensures
        free_count(answer, used.update(j0, true), c, j) + 1 == free_count(answer, used, c, j),
    decreases answer.len() - j,
{
    if j == j0 {
        lemma_free_count_same(answer, used, used.update(j0, true), c, j + 1);
    } else {
        lemma_free_count_update(answer, used, c, j + 1, j0);
    }
}

/// Consuming a slot that holds another letter leaves the free-slot count
/// for `c` unchanged.
proof fn lemma_free_count_update_other(
    answer: Seq<char>,
    used: Seq<bool>,
    c: char,
    j: int,
    j0: int,
)
    requires
        0 <= j0 < answer.len(),
        used.len() == answer.len(),
        answer[j0] != c,
    ensures
        free_count(answer, used.update(j0, true), c, j) == free_count(answer, used, c, j),
    decreases answer.len() - j,
{
    if !(j < 0 || j >= answer.len()) {
        lemma_free_count_update_other(answer, used, c, j + 1, j0);
    }
}

/// Before the second pass starts, free slots and pending positions for each
/// letter differ exactly by how often the letter favours one word over the
/// other.
proof fn lemma_initial_balance(answer: Seq<char>, guess: Seq<char>, c: char, j: int)
    requires
        answer.len() == guess.len(),
    ensures
        free_count(answer, exact_mask(answer, guess), c, j) + letter_count_from(guess, c, j)
            == pending_from(answer, guess, c, j) + letter_count_from(answer, c, j),
    decreases answer.len() - j,
{
    if !(j < 0 || j >= answer.len()) {
        lemma_initial_balance(answer, guess, c, j + 1);
    }
}

/// For anagrams the second pass keeps free slots and pending positions in
/// balance: at every step each letter offers exactly as many unconsumed
/// slots as guess positions that still ask for it.
proof fn lemma_balance_invariant(answer: Seq<char>, guess: Seq<char>, i: int)
    requires
        anagram(answer, guess),
        0 <= i <= guess.len(),
    ensures
        forall|c: char| #[trigger] pending_from(answer, guess, c, i) == free_count(
            answer,
            consumed_before(answer, guess, i),
            c,
            0,
        ),
    decreases i,
{
    if i == 0 {
        assert forall|c: char| #[trigger] pending_from(answer, guess, c, 0) == free_count(
            answer,
            consumed_before(answer, guess, 0),
            c,
            0,
        ) by {
            lemma_initial_balance(answer, guess, c, 0);
            assert(letter_count(answer, c) == letter_count(guess, c));
        }
    } else {
        lemma_balance_invariant(answer, guess, i - 1);
        let prev = consumed_before(answer, guess, i - 1);
        lemma_consumed_len(answer, guess, i - 1);
        if answer[i - 1] == guess[i - 1] {
            assert forall|c: char| #[trigger] pending_from(answer, guess, c, i) == free_count(
                answer,
                consumed_before(answer, guess, i),
                c,
                0,
            ) by {
                assert(pending_from(answer, guess, c, i - 1) == pending_from(
                    answer,
                    guess,
                    c,
                    i,
                ));
            }
        } else {
            let c0 = guess[i - 1];
            assert(pending_from(answer, guess, c0, i - 1) == 1 + pending_from(
                answer,
                guess,
                c0,
                i,
            ));
            lemma_free_count_pos_iff_some(answer, prev, c0, 0);
            lemma_first_slot_found(answer, prev, c0, 0);
            let j0 = first_free_slot(answer, prev, c0, 0)->0;
            assert forall|c: char| #[trigger] pending_from(answer, guess, c, i) == free_count(
                answer,
                consumed_before(answer, guess, i),
                c,
                0,
            ) by {
                if c == c0 {
                    lemma_free_count_update(answer, prev, c0, 0, j0);
                } else {
                    lemma_free_count_update_other(answer, prev, c, 0, j0);
                    assert(pending_from(answer, guess, c, i - 1) == pending_from(
                        answer,
                        guess,
                        c,
                        i,
                    ));
                }
            }
        }
    }
}

/// How many positions of `guess[i..]` hold letter `c` and earn credit,
/// that is, Correct or Misplaced feedback.
pub open spec fn credited_from(answer: Seq<char>, guess: Seq<char>, c: char, i: int) -> nat
    decreases guess.len() - i,
{
    if i < 0 || i >= guess.len() {
        0
    } else {
        (if guess[i] == c && feedback_at(answer, guess, i) != Correctness::Wrong {
            1nat
        } else {
            0nat
        }) + credited_from(answer, guess, c, i + 1)
    }
}

/// How many positions of the guess hold letter `c` and earn credit.
pub open spec fn credited(answer: Seq<char>, guess: Seq<char>, c: char) -> nat {
    credited_from(answer, guess, c, 0)
}

/// How many positions of `guess[i..]` hold letter `c` as an exact match.
spec fn green_count_from(answer: Seq<char>, guess: Seq<char>, c: char, i: int) -> nat
    decreases guess.len() - i,
{
    if i < 0 || i >= guess.len() {
        0
    } else {
        (if answer[i] == c && guess[i] == c {
            1nat
        } else {
            0nat
        }) + green_count_from(answer, guess, c, i + 1)
    }
}

/// The slots of a letter split between exact matches and free slots when
/// the second pass starts.
proof fn lemma_slot_partition(answer: Seq<char>, guess: Seq<char>, c: char, j: int)
    requires
        answer.len() == guess.len(),
    ensures
        free_count(answer, exact_mask(answer, guess), c, j) + green_count_from(answer, guess, c, j)
            == letter_count_from(answer, c, j),
    decreases answer.len() - j,
{
    if !(j < 0 || j >= answer.len()) {
        lemma_slot_partition(answer, guess, c, j + 1);
    }
}

/// Every credit earned from position `i` on is covered by a free slot or by
/// an exact match yet to come.
proof fn lemma_credit_invariant(answer: Seq<char>, guess: Seq<char>, c: char, i: int)
    requires
        answer.len() == guess.len(),
        0 <= i,
    ensures
        credited_from(answer, guess, c, i) <= free_count(
            answer,
            consumed_before(answer, guess, i),
            c,
            0,
        ) + green_count_from(answer, guess, c, i),
    decreases guess.len() - i,
{
    if i < guess.len() {
        lemma_credit_invariant(answer, guess, c, i + 1);
        let cur = consumed_before(answer, guess, i);
        lemma_consumed_len(answer, guess, i);
        if answer[i] == guess[i] {
            assert(consumed_before(answer, guess, i + 1) == cur);
        } else {
            let slot = first_free_slot(answer, cur, guess[i], 0);
            if slot is Some {
                let j0 = slot->0;
                lemma_first_slot_found(answer, cur, guess[i], 0);
                assert(consumed_before(answer, guess, i + 1) == cur.update(j0, true));
                if guess[i] == c {
                    lemma_free_count_update(answer, cur, c, 0, j0);
                } else {
                    lemma_free_count_update_other(answer, cur, c, 0, j0);
                }
            } else {
                assert(consumed_before(answer, guess, i + 1) == cur);
            }
        }
    }
}

/// No letter is credited more often than the answer holds it: Correct and
/// Misplaced positions for a letter never outnumber its occurrences.
pub proof fn lemma_credit_bounded_by_occurrences(answer: Seq<char>, guess: Seq<char>, c: char)
    requires
        answer.len() == guess.len(),
    ensures
        credited(answer, guess, c) <= letter_count(answer, c),
{
    lemma_credit_invariant(answer, guess, c, 0);
    lemma_slot_partition(answer, guess, c, 0);
}

/// An anagram of the answer earns no Wrong at all, and earns Correct at
/// exactly the positions where it matches the answer literally.
pub proof fn lemma_anagram_no_wrong(answer: Seq<char>, guess: Seq<char>)
    requires
        anagram(answer, guess),
    ensures
        spec_compute(answer, guess).len() == guess.len(),
        forall|i: int| 0 <= i < guess.len() ==> spec_compute(answer, guess)[i] != Correctness::Wrong,
        forall|i: int|
            0 <= i < guess.len() ==> ((spec_compute(answer, guess)[i] == Correctness::Correct)
                <==> answer[i] == guess[i]),
{
    assert forall|i: int| 0 <= i < guess.len() implies spec_compute(answer, guess)[i]
        != Correctness::Wrong by {
        if answer[i] != guess[i] {
            let c0 = guess[i];
            lemma_balance_invariant(answer, guess, i);
            assert(pending_from(answer, guess, c0, i) == 1 + pending_from(
                answer,
                guess,
                c0,
                i + 1,
            ));
            lemma_free_count_pos_iff_some(answer, consumed_before(answer, guess, i), c0, 0);
        }
    }
}

} // verus!

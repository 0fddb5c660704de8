//! The rules of hangman: a secret word, letters guessed one at a time, and
//! a fixed number of wrong guesses before the game is lost.

use crate::chance::random_below;
use vstd::prelude::*;
use vstd::string::StrSliceExecFns;

verus! {

/// How many wrong guesses lose the game.
pub const NUM_INCORRECT_GUESSES: u32 = 5;

/// The sign shown for a letter that is not found yet.
pub const HIDDEN: char = '-';

/// What a guess led to.
#[derive(Clone, Copy, Debug, PartialEq, Eq, Structural)]
pub enum Outcome {
    /// The letter was found, and letters are still hidden.
    Hit,
    /// The letter was found, and with it the whole word.
    Won,
    /// The letter is not among the hidden ones, and guesses are left.
    Miss,
    /// The letter is not among the hidden ones, and no guess is left.
    Lost,
}

/// The first place at which `secret` holds `letter` hidden, or `None` if it
/// holds it nowhere hidden.
pub open spec fn first_hidden(secret: Seq<char>, found: Seq<bool>, letter: char) -> Option<int> {
    if exists|i: int| hides(secret, found, letter, i) {
        Some(
            choose|i: int|
                hides(secret, found, letter, i) && forall|j: int|
                    0 <= j < i ==> !hides(secret, found, letter, j),
        )
    } else {
        None
    }
}

/// Whether place `i` of `secret` holds `letter` and is not found yet.
pub open spec fn hides(secret: Seq<char>, found: Seq<bool>, letter: char, i: int) -> bool {
    0 <= i < secret.len() && i < found.len() && !found[i] && secret[i] == letter
}

/// How many places are found.
pub open spec fn found_count(found: Seq<bool>) -> nat
    decreases found.len(),
{
    if found.len() == 0 {
        0
    } else {
        found_count(found.drop_last()) + if found.last() {
            1nat
        } else {
            0nat
        }
    }
}

/// The word as the player sees it: found letters as they are, the others
/// hidden.
pub open spec fn shown(secret: Seq<char>, found: Seq<bool>) -> Seq<char> {
    Seq::new(
        secret.len(),
        |i: int|
            if found[i] {
                secret[i]
            } else {
                HIDDEN
            },
    )
}

/// Finding one more place raises the count of found places by one.
proof fn lemma_found_one_more(found: Seq<bool>, at: int)
    requires
        0 <= at < found.len(),
        !found[at],
    ensures
        found_count(found.update(at, true)) == found_count(found) + 1,
    decreases found.len(),
{
    let after = found.update(at, true);
    if at == found.len() - 1 {
        assert(after.drop_last() =~= found.drop_last());
    } else {
        lemma_found_one_more(found.drop_last(), at);
        assert(after.drop_last() =~= found.drop_last().update(at, true));
    }
}

/// No more places are found than there are.
proof fn lemma_found_bounded(found: Seq<bool>)
    ensures
        found_count(found) <= found.len(),
    decreases found.len(),
{
    if found.len() > 0 {
        lemma_found_bounded(found.drop_last());
    }
}

/// All places are found exactly when each one is.
proof fn lemma_all_found(found: Seq<bool>)
    ensures
        found_count(found) == found.len() <==> forall|i: int| 0 <= i < found.len() ==> found[i],
    decreases found.len(),
{
    if found.len() > 0 {
        let init = found.drop_last();
        lemma_all_found(init);
        lemma_found_bounded(init);
        if forall|i: int| 0 <= i < found.len() ==> found[i] {
            assert forall|i: int| 0 <= i < init.len() implies init[i] by {
                assert(found[i]);
            }
        }
        if found_count(found) == found.len() {
            assert forall|i: int| 0 <= i < found.len() implies found[i] by {
                if i < init.len() {
                    assert(init[i]);
                }
            }
        }
    }
}

/// One game of hangman.
pub struct Hangman {
    secret_word_chars: Vec<char>,
    find_index: Vec<bool>,
    guessed_chars: Vec<char>,
    count: u32,
    find_count: usize,
}

impl Hangman {
    /// The letters of the secret word.
    pub closed spec fn secret(&self) -> Seq<char> {
        self.secret_word_chars@
    }

    /// Which places of the secret word are found.
    pub closed spec fn found(&self) -> Seq<bool> {
        self.find_index@
    }

    /// The letters guessed so far, in the order they were guessed.
    pub closed spec fn guessed(&self) -> Seq<char> {
        self.guessed_chars@
    }

    /// The number of wrong guesses so far.
    pub closed spec fn misses(&self) -> u32 {
        self.count
    }

    /// The invariant of a game: each place of the word is found or not,
    /// the found places are counted, and no more guesses were wrong than
    /// lose the game.
    pub closed spec fn wf(&self) -> bool {
        &&& self.find_index@.len() == self.secret_word_chars@.len()
        &&& self.find_count == found_count(self.find_index@)
        &&& self.count <= NUM_INCORRECT_GUESSES
    }

    /// Whether the player has found the whole word.
    pub open spec fn is_won(&self) -> bool {
        forall|i: int| 0 <= i < self.found().len() ==> self.found()[i]
    }

    /// Whether the player has no guess left.
    pub open spec fn is_lost(&self) -> bool {
        self.misses() >= NUM_INCORRECT_GUESSES
    }

    /// A game on `secret_word` in which nothing is found or guessed yet.
    pub fn new(secret_word: &str) -> (game: Hangman)
        ensures
            game.wf(),
            game.secret() == secret_word@,
            game.found() == Seq::new(secret_word@.len(), |i: int| false),
            game.guessed() == Seq::<char>::empty(),
            game.misses() == 0,
    {
        let n: usize = secret_word.unicode_len();
        let mut secret_word_chars: Vec<char> = Vec::new();
        let mut find_index: Vec<bool> = Vec::new();
        let mut i: usize = 0;
        while i < n
            invariant
                i <= n,
                n == secret_word@.len(),
                secret_word_chars@ == secret_word@.take(i as int),
                find_index@ == Seq::new(i as nat, |k: int| false),
                found_count(find_index@) == 0,
            decreases n - i,
        {
            let ghost before = find_index@;
            secret_word_chars.push(secret_word.get_char(i));
            find_index.push(false);
            proof {
                assert(find_index@.drop_last() =~= before);
                assert(secret_word_chars@ =~= secret_word@.take(i + 1));
                assert(find_index@ =~= Seq::new((i + 1) as nat, |k: int| false));
            }
            i += 1;
        }
        proof {
            assert(secret_word@.take(n as int) =~= secret_word@);
        }
        Hangman {
            secret_word_chars,
            find_index,
            guessed_chars: Vec::new(),
            count: 0,
            find_count: 0,
        }
    }

    /// How many wrong guesses the player can still make.
    pub fn guesses_left(&self) -> (left: u32)
        requires
            self.wf(),
        ensures
            left == NUM_INCORRECT_GUESSES - self.misses(),
    {
        NUM_INCORRECT_GUESSES - self.count
    }

    /// Whether the whole word is found.
    pub fn won(&self) -> (yes: bool)
        requires
            self.wf(),
        ensures
            yes == self.is_won(),
    {
        proof {
            lemma_all_found(self.find_index@);
            assert(self.found() == self.find_index@);
            assert(self.find_index@.len() == self.secret_word_chars@.len());
        }
        self.find_count == self.secret_word_chars.len()
    }

    /// Whether no guess is left.
    pub fn lost(&self) -> (yes: bool)
        ensures
            yes == self.is_lost(),
    {
        self.count >= NUM_INCORRECT_GUESSES
    }

    /// The word so far: each found letter, and a dash for each hidden one.
    pub fn word_so_far(&self) -> (word: Vec<char>)
        requires
            self.wf(),
        ensures
            word@ == shown(self.secret(), self.found()),
    {
        let mut word: Vec<char> = Vec::new();
        let mut i: usize = 0;
        while i < self.secret_word_chars.len()
            invariant
                i <= self.secret_word_chars@.len(),
                self.find_index@.len() == self.secret_word_chars@.len(),
                word@ == shown(self.secret(), self.found()).take(i as int),
            decreases self.secret_word_chars@.len() - i,
        {
            if self.find_index[i] {
                word.push(self.secret_word_chars[i]);
            } else {
                word.push(HIDDEN);
            }
            proof {
                assert(word@ =~= shown(self.secret(), self.found()).take(i + 1));
            }
            i += 1;
        }
        proof {
            assert(shown(self.secret(), self.found()).take(i as int) =~= shown(
                self.secret(),
                self.found(),
            ));
        }
        word
    }

    /// The letters guessed so far.
    pub fn guessed_so_far(&self) -> (letters: &Vec<char>)
        ensures
            letters@ == self.guessed(),
    {
        &self.guessed_chars
    }

    /// Takes the guess `letter`. The first place that holds the letter
    /// hidden is found; a letter that is hidden nowhere is a wrong guess.
    /// Either way the letter joins the guessed ones. In a game that is lost
    /// already nothing changes.
    pub fn guess(&mut self, letter: char) -> (outcome: Outcome)
        requires
            old(self).wf(),
        ensures
            final(self).wf(),
            final(self).secret() == old(self).secret(),
            old(self).is_lost() ==> outcome == Outcome::Lost && final(self).found() == old(
                self,
            ).found() && final(self).guessed() == old(self).guessed() && final(self).misses()
                == old(self).misses(),
            !old(self).is_lost() ==> {
                &&& final(self).guessed() == old(self).guessed().push(letter)
                &&& match first_hidden(old(self).secret(), old(self).found(), letter) {
                    Some(at) => {
                        &&& final(self).found() == old(self).found().update(at, true)
                        &&& final(self).misses() == old(self).misses()
                        &&& outcome == if final(self).is_won() {
                            Outcome::Won
                        } else {
                            Outcome::Hit
                        }
                    },
                    None => {
                        &&& final(self).found() == old(self).found()
                        &&& final(self).misses() == old(self).misses() + 1
                        &&& outcome == if final(self).is_lost() {
                            Outcome::Lost
                        } else {
                            Outcome::Miss
                        }
                    },
                }
            },
    {
        if self.count >= NUM_INCORRECT_GUESSES {
            return Outcome::Lost;
        }
        let ghost secret = self.secret_word_chars@;
        let ghost found = self.find_index@;
        self.guessed_chars.push(letter);
        let mut i: usize = 0;
        while i < self.secret_word_chars.len()
            invariant
                i <= self.secret_word_chars@.len(),
                self.secret_word_chars@ == secret,
                self.find_index@ == found,
                secret == old(self).secret_word_chars@,
                found == old(self).find_index@,
                found.len() == secret.len(),
                self.find_count == found_count(found),
                self.count == old(self).count,
                self.count < NUM_INCORRECT_GUESSES,
                self.guessed_chars@ == old(self).guessed_chars@.push(letter),
                forall|j: int| 0 <= j < i ==> !hides(secret, found, letter, j),
            decreases self.secret_word_chars@.len() - i,
        {
            if !self.find_index[i] && self.secret_word_chars[i] == letter {
                proof {
                    assert(hides(secret, found, letter, i as int));
                    let at = choose|at: int|
                        hides(secret, found, letter, at) && forall|j: int|
                            0 <= j < at ==> !hides(secret, found, letter, j);
                    assert(at == i) by {
                        if at < i {
                            assert(!hides(secret, found, letter, at));
                        }
                        if i < at {
                            assert(!hides(secret, found, letter, i as int));
                        }
                    }
                    lemma_found_one_more(found, i as int);
                    lemma_found_bounded(found.update(i as int, true));
                }
                self.find_index.set(i, true);
                self.find_count += 1;
                let all: bool = self.find_count == self.secret_word_chars.len();
                proof {
                    assert(self.find_index@ =~= found.update(i as int, true));
                    lemma_all_found(self.find_index@);
                    assert(self.found() == self.find_index@);
                    assert(all == self.is_won());
                    assert(first_hidden(secret, found, letter) == Some(i as int));
                }
                return if all {
                    Outcome::Won
                } else {
                    Outcome::Hit
                };
            }
            i += 1;
        }
        proof {
            assert forall|k: int| !hides(secret, found, letter, k) by {}
        }
        self.count += 1;
        if self.count >= NUM_INCORRECT_GUESSES {
            Outcome::Lost
        } else {
            Outcome::Miss
        }
    }
}

/// Picks one of `words` at random.
pub fn pick_a_random_word(words: &Vec<String>) -> (word: &String)
    requires
        words@.len() > 0,
    ensures
        words@.contains(*word),
{
    let index: usize = random_below(words.len());
    &words[index]
}

} // verus!

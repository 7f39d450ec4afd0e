use rand::Rng;
use vstd::prelude::*;
use vstd::string::StringSliceAdditionalSpecFns;

use crate::word_list::WordList;
use crate::word_list::WordLists;

verus! {

/// `Rng::gen_range` of the rand crate on the range `0..n`, drawn from the generator of the
/// thread: a number below `n`. Which one depends on chance, and nothing more is claimed. An
/// empty range makes `gen_range` panic, so `n` is above zero.
#[verifier::external_body]
fn random_index(n: usize) -> (i: usize)
    requires
        n > 0,
    ensures
        i < n,
{
    rand::thread_rng().gen_range(0..n)
}

/// A word of the list, drawn at random.
pub fn choose_target_word(targets_list: &WordList) -> (word: &[u8])
    requires
        targets_list.spec_len() > 0,
    ensures
        targets_list.has(word@),
{
    let i = random_index(targets_list.len());
    proof {
        targets_list.lemma_word_length(i as int);
    }
    match targets_list.get(i) {
        Some(word) => word,
        None => &[],
    }
}

/// What a guess says of one letter.
#[derive(Clone, Copy, Debug, PartialEq, Eq, Structural)]
pub enum Status {
    /// Letter is in the correct position.
    Correct,
    /// Letter appears in the word, but in a different position.
    Misplaced,
    /// Letter does not appear in the word at all.
    Incorrect,
}

/// The answer to a guess.
#[derive(Debug)]
pub enum Response {
    /// List of hints, one for each letter in the guess.
    Hint(Vec<Status>),
    /// The guess is the target word.
    Correct,
    /// No guesses are left.
    TooManyGuesses,
    /// The guess is not a word in the dictionary; it may not even be of the right length.
    InvalidGuess,
}

/// What the letter `c` at place `index` of a guess says of `target`.
pub open spec fn status_of(target: Seq<u8>, c: u8, index: int) -> Status {
    if target[index] == c {
        Status::Correct
    } else if target.contains(c) {
        Status::Misplaced
    } else {
        Status::Incorrect
    }
}

/// Whether `guess` is a word that a game with this dictionary takes: an ASCII word of the
/// dictionary.
pub open spec fn valid_guess(dictionary: &WordList, guess: &str) -> bool {
    dictionary.has(guess.spec_bytes()) && guess.is_ascii()
}

/// A game of guessing one word in a number of guesses.
#[derive(Debug)]
pub struct Game<'dict> {
    dictionary: &'dict WordList,
    target: &'dict [u8],
    guesses: u32,
}

impl<'dict> Game<'dict> {
    /// The list of all words that a guess may be.
    pub closed spec fn dictionary(&self) -> &WordList {
        self.dictionary
    }

    /// The word to be guessed.
    pub closed spec fn target(&self) -> Seq<u8> {
        self.target@
    }

    /// The number of guesses left.
    pub closed spec fn guesses(&self) -> u32 {
        self.guesses
    }

    /// The target is as long as the words of the dictionary.
    pub open spec fn wf(&self) -> bool {
        self.target().len() == self.dictionary().spec_word_len()
    }

    /// A game on `target` with `guesses` guesses.
    #[must_use]
    pub fn new(dictionary: &'dict WordList, target: &'dict str, guesses: u32) -> (game: Self)
        requires
            target.spec_bytes().len() == dictionary.spec_word_len(),
        ensures
            game.wf(),
            game.dictionary() == dictionary,
            game.target() == target.spec_bytes(),
            game.guesses() == guesses,
    {
        Game { dictionary, target: target.as_bytes(), guesses }
    }

    /// A game on a target drawn at random from the targets of `word_lists`.
    #[must_use]
    pub fn from_word_lists(word_lists: &'dict WordLists, guesses: u32) -> (game: Self)
        requires
            word_lists.targets.spec_len() > 0,
            word_lists.targets.spec_word_len() == word_lists.dictionary.spec_word_len(),
        ensures
            game.wf(),
            game.dictionary() == &word_lists.dictionary,
            word_lists.targets.has(game.target()),
            game.guesses() == guesses,
    {
        let target = choose_target_word(&word_lists.targets);
        proof {
            let i = choose|i: int|
                0 <= i < word_lists.targets.spec_len() && #[trigger] word_lists.targets.word(i)
                    == target@;
            word_lists.targets.lemma_word_length(i);
        }
        Game { dictionary: &word_lists.dictionary, target, guesses }
    }

    /// What the letter `c` at place `index` of a guess says of the target.
    #[must_use]
    fn check_char(&self, c: u8, index: usize) -> (status: Status)
        requires
            index < self.target().len(),
        ensures
            status == status_of(self.target(), c, index as int),
    {
        if self.target[index] == c {
            return Status::Correct;
        }
        let mut k: usize = 0;
        while k < self.target.len()
            invariant
                k <= self.target@.len(),
                index < self.target@.len(),
                self.target@[index as int] != c,
                forall|j: int| 0 <= j < k ==> self.target@[j] != c,
            decreases self.target@.len() - k,
        {
            if self.target[k] == c {
                assert(self.target@[k as int] == c);
                return Status::Misplaced;
            }
            k += 1;
        }
        Status::Incorrect
    }

    /// Takes a guess, which should be a lowercase ASCII word. With no guesses left the
    /// answer is `TooManyGuesses`; a guess that halving the dictionary does not find, as any
    /// guess that a sorted dictionary does not hold, is an `InvalidGuess`; neither costs a
    /// guess. Any other guess costs one, and is answered by
    /// `Correct` if it is the target and else by one hint for each of its letters.
    pub fn guess(&mut self, guess: &str) -> (response: Response)
        requires
            old(self).wf(),
        ensures
            final(self).wf(),
            final(self).dictionary() == old(self).dictionary(),
            final(self).target() == old(self).target(),
            old(self).guesses() == 0 <==> response is TooManyGuesses,
            final(self).guesses() == if response is Correct || response is Hint {
                old(self).guesses() - 1
            } else {
                old(self).guesses() as int
            },
            response is Correct || response is Hint ==> old(self).dictionary().has(
                guess.spec_bytes(),
            ),
            old(self).guesses() > 0 ==> (response is InvalidGuess) == !old(self).dictionary().finds(
                guess,
            ),
            old(self).dictionary().sorted() && old(self).guesses() > 0 ==> (response
                is InvalidGuess <==> !valid_guess(old(self).dictionary(), guess)),
            response is Correct ==> guess.spec_bytes() == old(self).target(),
            response is Hint ==> guess.spec_bytes() != old(self).target(),
            match response {
                Response::Hint(hints) => {
                    &&& hints@.len() == guess.spec_bytes().len()
                    &&& forall|i: int|
                        0 <= i < hints@.len() ==> #[trigger] hints@[i] == status_of(
                            old(self).target(),
                            guess.spec_bytes()[i],
                            i,
                        )
                },
                _ => true,
            },
    {
        if self.guesses == 0 {
            return Response::TooManyGuesses;
        }
        if !self.dictionary.contains(guess) {
            return Response::InvalidGuess;
        }
        self.guesses -= 1;
        let letters = guess.as_bytes();
        proof {
            let i = choose|i: int|
                0 <= i < self.dictionary.spec_len() && #[trigger] self.dictionary.word(i)
                    == guess.spec_bytes();
            self.dictionary.lemma_word_length(i);
        }
        if let crate::word_list::Comparison::Equal = crate::word_list::compare(letters, self.target) {
            return Response::Correct;
        }
        let mut hints: Vec<Status> = Vec::new();
        let mut i: usize = 0;
        while i < letters.len()
            invariant
                i <= letters@.len() == self.target().len(),
                hints@.len() == i,
                forall|j: int|
                    0 <= j < i ==> #[trigger] hints@[j] == status_of(self.target(), letters@[j], j),
            decreases letters@.len() - i,
        {
            hints.push(self.check_char(letters[i], i));
            i += 1;
        }
        Response::Hint(hints)
    }
}

} // verus!

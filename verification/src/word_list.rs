use vstd::prelude::*;
use vstd::slice::slice_subrange;
use vstd::string::StringSliceAdditionalSpecFns;

verus! {

/// Whether `a` and `b` agree on their first `k` bytes and `a` comes first by what stands at
/// place `k`: there `a` has the smaller byte, or `a` ends there and `b` goes on.
pub open spec fn parts_at(a: Seq<u8>, b: Seq<u8>, k: int) -> bool {
    &&& 0 <= k <= a.len()
    &&& k <= b.len()
    &&& a.subrange(0, k) == b.subrange(0, k)
    &&& if k < a.len() && k < b.len() {
        a[k] < b[k]
    } else {
        k < b.len()
    }
}

/// `a` comes before `b` in the order of a dictionary, byte by byte: at the first place where
/// they differ `a` has the smaller byte, or `a` ends there and `b` goes on.
pub open spec fn comes_before(a: Seq<u8>, b: Seq<u8>) -> bool {
    exists|k: int| parts_at(a, b, k)
}

/// How two words stand to each other in the order of a dictionary.
#[derive(Clone, Copy, PartialEq, Eq, Debug)]
pub enum Comparison {
    Less,
    Equal,
    Greater,
}

/// How `a` stands to `b` in the order of a dictionary.
pub fn compare(a: &[u8], b: &[u8]) -> (c: Comparison)
    ensures
        c == Comparison::Equal <==> a@ == b@,
        c == Comparison::Less <==> comes_before(a@, b@),
        c == Comparison::Greater <==> comes_before(b@, a@),
{
    let mut k: usize = 0;
    while k < a.len() && k < b.len()
        invariant
            k <= a@.len(),
            k <= b@.len(),
            a@.subrange(0, k as int) == b@.subrange(0, k as int),
        decreases a@.len() - k,
    {
        if a[k] != b[k] {
            proof {
                lemma_first_difference(a@, b@, k as int);
                lemma_first_difference(b@, a@, k as int);
            }
            if a[k] < b[k] {
                return Comparison::Less;
            } else {
                return Comparison::Greater;
            }
        }
        proof {
            assert(a@.subrange(0, k + 1) =~= a@.subrange(0, k as int).push(a@[k as int]));
            assert(b@.subrange(0, k + 1) =~= b@.subrange(0, k as int).push(b@[k as int]));
        }
        k += 1;
    }
    proof {
        lemma_first_difference(a@, b@, k as int);
        lemma_first_difference(b@, a@, k as int);
        if a@.len() == b@.len() {
            assert(a@ =~= a@.subrange(0, k as int));
            assert(b@ =~= b@.subrange(0, k as int));
        }
    }
    if a.len() < b.len() {
        Comparison::Less
    } else if a.len() > b.len() {
        Comparison::Greater
    } else {
        Comparison::Equal
    }
}

/// Two words that agree on their first `k` bytes and then differ, or of which one ends
/// there, are ordered by what stands at place `k`.
pub proof fn lemma_first_difference(a: Seq<u8>, b: Seq<u8>, k: int)
    requires
        0 <= k <= a.len(),
        k <= b.len(),
        a.subrange(0, k) == b.subrange(0, k),
        k == a.len() || k == b.len() || a[k] != b[k],
    ensures
        comes_before(a, b) <==> (if k < a.len() && k < b.len() {
            a[k] < b[k]
        } else {
            k < b.len()
        }),
{
    if comes_before(a, b) {
        let j = choose|j: int| parts_at(a, b, j);
        if j < k {
            assert(a.subrange(0, k)[j] == a[j]);
            assert(b.subrange(0, k)[j] == b[j]);
        } else if j > k {
            assert(a.subrange(0, j)[k] == a[k]);
            assert(b.subrange(0, j)[k] == b[k]);
        }
    }
    if (if k < a.len() && k < b.len() {
        a[k] < b[k]
    } else {
        k < b.len()
    }) {
        assert(parts_at(a, b, k));
    }
}

/// The bytes of the first `n` of `words`, one word after the other.
pub open spec fn joined(words: Seq<&str>, n: int) -> Seq<u8>
    decreases n,
{
    if n <= 0 {
        Seq::empty()
    } else {
        joined(words, n - 1) + words[n - 1].spec_bytes()
    }
}

/// A list of words that all have the same length, held as the bytes of one word after the
/// other.
#[derive(Debug)]
pub struct WordList {
    word_len: usize,
    words: Vec<u8>,
}

impl Default for WordList {
    /// The list without words.
    fn default() -> (list: Self)
        ensures
            list.spec_word_len() == 0,
            list.bytes().len() == 0,
    {
        WordList { word_len: 0, words: Vec::new() }
    }
}

impl WordList {
    /// The length of every word of the list.
    pub closed spec fn spec_word_len(&self) -> usize {
        self.word_len
    }

    /// The bytes of all words, one word after the other.
    pub closed spec fn bytes(&self) -> Seq<u8> {
        self.words@
    }

    /// The number of whole words in the list; 0 where the word length is 0.
    pub open spec fn spec_len(&self) -> int {
        if self.spec_word_len() == 0 {
            0
        } else {
            self.bytes().len() as int / self.spec_word_len() as int
        }
    }

    /// The `i`-th word of the list.
    pub open spec fn word(&self, i: int) -> Seq<u8> {
        self.bytes().subrange(i * self.spec_word_len(), (i + 1) * self.spec_word_len())
    }

    /// No word of the list comes before a word that stands earlier in the list.
    pub open spec fn sorted(&self) -> bool {
        forall|i: int, j: int|
            0 <= i < j < self.spec_len() ==> !comes_before(#[trigger] self.word(j), #[trigger] self.word(i))
    }

    /// What halving finds of `word` among the words from `left` up to `right`: the word in
    /// the middle is compared; if it is `word` the search has found it, if it comes before
    /// `word` the search goes on above it, and else below it.
    pub open spec fn search(&self, word: Seq<u8>, left: int, right: int) -> bool
        decreases right - left,
    {
        if left >= right {
            false
        } else {
            let mid = left + (right - left) / 2;
            if self.word(mid) == word {
                true
            } else if comes_before(self.word(mid), word) {
                self.search(word, mid + 1, right)
            } else {
                self.search(word, left, mid)
            }
        }
    }

    /// Whether `contains` finds `word`: it is an ASCII word of the list's word length, which
    /// is not 0, and halving the whole list finds it.
    pub open spec fn finds(&self, word: &str) -> bool {
        &&& word.spec_bytes().len() == self.spec_word_len()
        &&& self.spec_word_len() > 0
        &&& word.is_ascii()
        &&& self.search(word.spec_bytes(), 0, self.spec_len())
    }

    /// Whether `word` is one of the words of the list.
    pub open spec fn has(&self, word: Seq<u8>) -> bool {
        exists|i: int| 0 <= i < self.spec_len() && #[trigger] self.word(i) == word
    }

    /// The words of `slice`, one after the other, as a list whose word length is the length
    /// of the first of them. The words are taken as they come: for `contains` to find every
    /// one of them, they have to be of one length and sorted.
    #[must_use]
    pub fn from_slice(slice: &[&str]) -> (list: Self)
        ensures
            list.spec_word_len() == (if slice@.len() == 0 {
                0
            } else {
                slice@[0].spec_bytes().len()
            }),
            list.bytes() == joined(slice@, slice@.len() as int),
    {
        let n_words = slice.len();
        if n_words == 0 {
            return WordList { word_len: 0, words: Vec::new() };
        }
        let word_len = slice[0].as_bytes().len();
        let mut words: Vec<u8> = Vec::new();
        let mut i: usize = 0;
        while i < n_words
            invariant
                i <= n_words == slice@.len(),
                words@ == joined(slice@, i as int),
            decreases n_words - i,
        {
            words.extend_from_slice(slice[i].as_bytes());
            i += 1;
        }
        WordList { word_len, words }
    }

    /// The bytes of the word at `index`, if the list holds a whole word there.
    #[must_use]
    pub fn get(&self, index: usize) -> (word: Option<&[u8]>)
        ensures
            match word {
                Some(bytes) => (index + 1) * self.spec_word_len() <= self.bytes().len() && bytes@
                    == self.word(index as int),
                None => (index + 1) * self.spec_word_len() > self.bytes().len(),
            },
    {
        let total = self.words.len();
        let start_idx = match index.checked_mul(self.word_len) {
            Some(start) => start,
            None => {
                assert((index + 1) * self.word_len > self.words@.len()) by (nonlinear_arith)
                    requires
                        index * self.word_len > usize::MAX,
                        self.words@.len() == total <= usize::MAX,
                        self.word_len >= 0,
                ;
                return None;
            },
        };
        let end_idx = match start_idx.checked_add(self.word_len) {
            Some(end) => end,
            None => {
                assert((index + 1) * self.word_len == index * self.word_len + self.word_len)
                    by (nonlinear_arith);
                return None;
            },
        };
        assert((index + 1) * self.word_len == index * self.word_len + self.word_len)
            by (nonlinear_arith);
        if end_idx > total {
            return None;
        }
        Some(slice_subrange(self.words.as_slice(), start_idx, end_idx))
    }

    /// Whether `word` is in the list, found by halving a sorted list. A word of another
    /// length than the list's, or one that is not ASCII, is in no list.
    #[must_use]
    pub fn contains(&self, word: &str) -> (found: bool)
        ensures
            found == self.finds(word),
            found ==> self.has(word.spec_bytes()) && word.is_ascii(),
            self.sorted() ==> found == (self.has(word.spec_bytes()) && word.is_ascii()),
    {
        if word.len() != self.word_len || !word.is_ascii() || self.word_len == 0 {
            proof {
                if self.has(word.spec_bytes()) {
                    let i = choose|i: int| 0 <= i < self.spec_len() && #[trigger] self.word(i) == word.spec_bytes();
                    self.lemma_word_length(i);
                }
            }
            return false;
        }
        let target = word.as_bytes();
        let mut left: usize = 0;
        let mut right: usize = self.len();
        while left < right
            invariant
                self.spec_word_len() > 0,
                left <= right <= self.spec_len(),
                target@ == word.spec_bytes(),
                word.is_ascii(),
                self.search(target@, 0, self.spec_len()) == self.search(
                    target@,
                    left as int,
                    right as int,
                ),
                self.sorted() ==> forall|i: int|
                    0 <= i < left || right <= i < self.spec_len() ==> #[trigger] self.word(i) != target@,
            decreases right - left,
        {
            let mid = left + (right - left) / 2;
            proof {
                self.lemma_word_length(mid as int);
            }
            let here = match self.get(mid) {
                Some(bytes) => bytes,
                None => {
                    return false;
                },
            };
            match compare(here, target) {
                Comparison::Less => {
                    left = mid + 1;
                },
                Comparison::Greater => {
                    right = mid;
                },
                Comparison::Equal => {
                    assert(self.word(mid as int) == word.spec_bytes());
                    return true;
                },
            }
        }
        false
    }

    /// Every whole word of the list has the list's word length and lies within its bytes.
    pub proof fn lemma_word_length(&self, i: int)
        requires
            0 <= i < self.spec_len(),
        ensures
            (i + 1) * self.spec_word_len() <= self.bytes().len(),
            0 <= i * self.spec_word_len(),
            self.word(i).len() == self.spec_word_len(),
    {
        let n = self.spec_word_len() as int;
        let total = self.bytes().len() as int;
        vstd::arithmetic::div_mod::lemma_fundamental_div_mod(total, n);
        vstd::arithmetic::div_mod::lemma_mod_bound(total, n);
        assert((i + 1) * n <= n * (total / n)) by (nonlinear_arith)
            requires
                0 <= i < total / n,
                n > 0,
        ;
        assert(0 <= i * n && (i + 1) * n == i * n + n) by (nonlinear_arith)
            requires
                0 <= i,
                n > 0,
        ;
    }

    #[must_use]
    pub fn word_len(&self) -> (word_len: usize)
        ensures
            word_len == self.spec_word_len(),
    {
        self.word_len
    }

    /// The number of whole words in the list. A list whose words have no length has no
    /// number of words.
    #[must_use]
    pub fn len(&self) -> (len: usize)
        requires
            self.spec_word_len() > 0,
        ensures
            len == self.spec_len(),
    {
        self.words.len() / self.word_len
    }

    #[must_use]
    pub fn is_empty(&self) -> (empty: bool)
        ensures
            empty == (self.bytes().len() == 0),
    {
        self.words.len() == 0
    }
}

/// `std::io::Error`, the failure of a reading. Nothing is known of what it holds.
#[verifier::external_type_specification]
#[verifier::external_body]
pub struct ExIoError(std::io::Error);

/// `String::pop` of std: the last char is taken off and returned, if there is one.
pub assume_specification[ String::pop ](s: &mut String) -> (c: Option<char>)
    ensures
        old(s)@.len() == 0 ==> c.is_none() && final(s)@ == old(s)@,
        old(s)@.len() > 0 ==> c == Some(old(s)@.last()) && final(s)@ == old(s)@.drop_last(),
;

/// Why word lists could not be had.
#[derive(Debug)]
pub enum Error {
    /// Two words, or the words of two lists, have these two lengths.
    InequalLengths(u32, u32),
    /// The first line is longer than a word length can say.
    TooLong(String),
    /// The words could not be read.
    Io(std::io::Error),
}

/// The list of all valid words and the list of the words that may be asked for, of one
/// word length.
#[derive(Debug)]
pub struct WordLists {
    pub dictionary: WordList,
    pub targets: WordList,
    pub word_length: u32,
}

/// The first of `lines` that has not `len` bytes, or the number of lines if all have.
pub open spec fn first_odd_line(lines: Seq<&str>, len: int, n: int) -> int
    decreases n,
{
    if n <= 0 {
        0
    } else if first_odd_line(lines, len, n - 1) < n - 1 {
        first_odd_line(lines, len, n - 1)
    } else if lines[n - 1].spec_bytes().len() != len {
        n - 1
    } else {
        n
    }
}

/// Whether the lines of a file make a word list: the first line is not too long, and every
/// other line has as many bytes as the first line has without its last byte.
pub open spec fn loads(first_line: &str, rest: Seq<&str>) -> bool {
    &&& first_line.spec_bytes().len() <= u32::MAX
    &&& first_odd_line(rest, first_line.spec_bytes().len() - 1, rest.len() as int) == rest.len()
}

/// The first word of a file: its first line without the last character.
pub open spec fn loaded_word(first_line: &str) -> Seq<u8> {
    vstd::utf8::encode_utf8(first_line@.drop_last())
}

/// Whether `e` is the error of a file whose lines make no word list: the first line if it is
/// too long, else the length that was wanted and the length, cut to 32 bits, of the first
/// line that has another.
pub open spec fn load_failure(first_line: &str, rest: Seq<&str>, e: Error) -> bool {
    let len = first_line.spec_bytes().len() - 1;
    let odd = first_odd_line(rest, len, rest.len() as int);
    match e {
        Error::TooLong(line) => first_line.spec_bytes().len() > u32::MAX && line@ == first_line@,
        Error::InequalLengths(wanted, found) => {
            &&& first_line.spec_bytes().len() <= u32::MAX
            &&& odd < rest.len()
            &&& wanted == len
            &&& found == rest[odd].spec_bytes().len() % 0x1_0000_0000
        },
        Error::Io(_) => false,
    }
}

/// The word list of a file whose first line, with the line feed that ends it, is
/// `first_line`, and whose other lines, without their line ends, are `rest`. The first line
/// loses its last character and is the first word; every other line has to have as many
/// bytes as the first line had without its last byte.
pub fn load_list(first_line: &str, rest: &[&str]) -> (result: Result<WordList, Error>)
    requires
        first_line.spec_bytes().len() > 0,
    ensures
        match result {
            Ok(list) => {
                &&& loads(first_line, rest@)
                &&& list.spec_word_len() == loaded_word(first_line).len()
                &&& list.bytes() == loaded_word(first_line) + joined(rest@, rest@.len() as int)
            },
            Err(e) => !loads(first_line, rest@) && load_failure(first_line, rest@, e),
        },
{
    let line_length = first_line.as_bytes().len();
    if line_length > u32::MAX as usize {
        return Err(Error::TooLong(first_line.to_owned()));
    }
    let mut first_word = first_line.to_owned();
    first_word.pop();
    let first: &str = first_word.as_str();
    let mut list: Vec<&str> = Vec::new();
    list.push(first);
    let mut i: usize = 0;
    while i < rest.len()
        invariant
            i <= rest@.len(),
            line_length == first_line.spec_bytes().len(),
            0 < line_length <= u32::MAX,
            first_odd_line(rest@, line_length - 1, i as int) == i,
            list@ == seq![first] + rest@.subrange(0, i as int),
        decreases rest@.len() - i,
    {
        let w = rest[i];
        let len = w.as_bytes().len();
        if len == line_length - 1 {
            list.push(w);
            proof {
                assert(rest@.subrange(0, i + 1) =~= rest@.subrange(0, i as int).push(w));
            }
        } else {
            proof {
                lemma_odd_line_stays(rest@, line_length - 1, i as int, rest@.len() as int);
            }
            let found: u64 = len as u64 % 0x1_0000_0000;
            return Err(Error::InequalLengths((line_length - 1) as u32, found as u32));
        }
        i += 1;
    }
    let words = WordList::from_slice(list.as_slice());
    proof {
        assert(rest@.subrange(0, rest@.len() as int) =~= rest@);
        lemma_joined_after_first(first, rest@, rest@.len() as int);
    }
    Ok(words)
}

/// Once a line of another length is found, later lines do not change which one is first.
pub proof fn lemma_odd_line_stays(lines: Seq<&str>, len: int, i: int, n: int)
    requires
        0 <= i < n,
        first_odd_line(lines, len, i) == i,
        lines[i].spec_bytes().len() != len,
    ensures
        first_odd_line(lines, len, n) == i,
    decreases n,
{
    if n > i + 1 {
        lemma_odd_line_stays(lines, len, i, n - 1);
    }
}

/// The bytes of a first word and then `n` further words are the bytes of the first word and
/// then the joined bytes of the others.
pub proof fn lemma_joined_after_first(first: &str, rest: Seq<&str>, n: int)
    requires
        0 <= n <= rest.len(),
    ensures
        joined(seq![first] + rest, n + 1) == first.spec_bytes() + joined(rest, n),
    decreases n,
{
    let all = seq![first] + rest;
    if n == 0 {
        assert(joined(all, 0) =~= Seq::<u8>::empty());
        assert(joined(all, 1) =~= first.spec_bytes());
        assert(first.spec_bytes() + joined(rest, 0) =~= first.spec_bytes());
    } else {
        lemma_joined_after_first(first, rest, n - 1);
        assert(all[n] == rest[n - 1]);
        assert(joined(all, n + 1) =~= first.spec_bytes() + joined(rest, n));
    }
}

/// The two word lists of a game, each from the lines of its file as `load_list` takes them.
/// The first file that makes no list gives its error; two lists of different word lengths
/// give both lengths, each cut to 32 bits.
pub fn load(
    dictionary_first: &str,
    dictionary_rest: &[&str],
    targets_first: &str,
    targets_rest: &[&str],
) -> (result: Result<WordLists, Error>)
    requires
        dictionary_first.spec_bytes().len() > 0,
        targets_first.spec_bytes().len() > 0,
    ensures
        match result {
            Ok(lists) => {
                &&& loads(dictionary_first, dictionary_rest@)
                &&& loads(targets_first, targets_rest@)
                &&& loaded_word(dictionary_first).len() == loaded_word(targets_first).len()
                &&& lists.dictionary.spec_word_len() == loaded_word(dictionary_first).len()
                &&& lists.dictionary.bytes() == loaded_word(dictionary_first) + joined(
                    dictionary_rest@,
                    dictionary_rest@.len() as int,
                )
                &&& lists.targets.spec_word_len() == loaded_word(targets_first).len()
                &&& lists.targets.bytes() == loaded_word(targets_first) + joined(
                    targets_rest@,
                    targets_rest@.len() as int,
                )
                &&& lists.word_length == loaded_word(dictionary_first).len() % 0x1_0000_0000
            },
            Err(e) => if !loads(dictionary_first, dictionary_rest@) {
                load_failure(dictionary_first, dictionary_rest@, e)
            } else if !loads(targets_first, targets_rest@) {
                load_failure(targets_first, targets_rest@, e)
            } else {
                &&& loaded_word(dictionary_first).len() != loaded_word(targets_first).len()
                &&& e matches Error::InequalLengths(dictionary_length, targets_length)
                &&& dictionary_length == loaded_word(dictionary_first).len() % 0x1_0000_0000
                &&& targets_length == loaded_word(targets_first).len() % 0x1_0000_0000
            },
        },
{
    let dictionary = match load_list(dictionary_first, dictionary_rest) {
        Ok(list) => list,
        Err(e) => {
            return Err(e);
        },
    };
    let targets = match load_list(targets_first, targets_rest) {
        Ok(list) => list,
        Err(e) => {
            return Err(e);
        },
    };
    word_lists(dictionary, targets)
}

/// The two word lists of a game, if their words are of one length; else both lengths, each
/// cut to 32 bits.
pub fn word_lists(dictionary: WordList, targets: WordList) -> (result: Result<WordLists, Error>)
    ensures
        match result {
            Ok(lists) => {
                &&& dictionary.spec_word_len() == targets.spec_word_len()
                &&& lists.dictionary == dictionary
                &&& lists.targets == targets
                &&& lists.word_length == dictionary.spec_word_len() as int % 0x1_0000_0000
            },
            Err(e) => {
                &&& dictionary.spec_word_len() != targets.spec_word_len()
                &&& e matches Error::InequalLengths(dictionary_length, targets_length)
                &&& dictionary_length == dictionary.spec_word_len() as int % 0x1_0000_0000
                &&& targets_length == targets.spec_word_len() as int % 0x1_0000_0000
            },
        },
{
    let dict_word_length = dictionary.word_len();
    let target_word_length = targets.word_len();
    let dictionary_length: u64 = dict_word_length as u64 % 0x1_0000_0000;
    let targets_length: u64 = target_word_length as u64 % 0x1_0000_0000;
    if dict_word_length != target_word_length {
        return Err(Error::InequalLengths(dictionary_length as u32, targets_length as u32));
    }
    Ok(WordLists { dictionary, targets, word_length: dictionary_length as u32 })
}

} // verus!

use cellular_automata::word_list::compare;
use cellular_automata::word_list::load;
use cellular_automata::word_list::load_list;
use cellular_automata::word_list::Comparison;
use cellular_automata::word_list::Error;
use cellular_automata::word_list::WordList;
use cellular_automata::word_list::WordLists;
use cellular_automata::wordle::choose_target_word;
use cellular_automata::wordle::Game;
use cellular_automata::wordle::Response;
use cellular_automata::wordle::Status;

fn fruits() -> WordList {
    WordList::from_slice(&["apple", "grape", "lemon", "mango", "peach"])
}

#[test]
fn compare_orders_like_a_dictionary() {
    assert_eq!(compare(b"apple", b"apple"), Comparison::Equal);
    assert_eq!(compare(b"apple", b"apply"), Comparison::Less);
    assert_eq!(compare(b"b", b"apple"), Comparison::Greater);
    assert_eq!(compare(b"app", b"apple"), Comparison::Less);
    assert_eq!(compare(b"apple", b"app"), Comparison::Greater);
    assert_eq!(compare(b"", b""), Comparison::Equal);
    assert_eq!(compare(b"", b"a"), Comparison::Less);
    assert_eq!(compare(&[0xff], &[0x7f]), Comparison::Greater);
}

#[test]
fn from_slice_packs_the_words() {
    let list = fruits();
    assert_eq!(list.word_len(), 5);
    assert_eq!(list.len(), 5);
    assert!(!list.is_empty());
    assert_eq!(list.get(0), Some(&b"apple"[..]));
    assert_eq!(list.get(4), Some(&b"peach"[..]));
    assert_eq!(list.get(5), None);
    assert_eq!(list.get(usize::MAX), None);
}

#[test]
fn from_slice_of_nothing_is_empty() {
    let list = WordList::from_slice(&[]);
    assert_eq!(list.word_len(), 0);
    assert!(list.is_empty());
    assert!(!list.contains(""));
    assert!(!list.contains("apple"));
    let list = WordList::default();
    assert_eq!(list.word_len(), 0);
    assert!(list.is_empty());
}

#[test]
fn from_slice_takes_the_length_of_the_first_word() {
    let list = WordList::from_slice(&["ab", "cde", "f"]);
    assert_eq!(list.word_len(), 2);
    assert_eq!(list.len(), 3);
    assert_eq!(list.get(1), Some(&b"cd"[..]));
    assert_eq!(list.get(2), Some(&b"ef"[..]));
}

#[test]
fn contains_finds_every_word_of_a_sorted_list() {
    let list = fruits();
    for word in ["apple", "grape", "lemon", "mango", "peach"] {
        assert!(list.contains(word), "{}", word);
    }
    for word in ["aaaaa", "berry", "lemom", "lemoo", "zzzzz", "APPLE"] {
        assert!(!list.contains(word), "{}", word);
    }
}

#[test]
fn contains_refuses_other_lengths_and_other_alphabets() {
    let list = fruits();
    assert!(!list.contains(""));
    assert!(!list.contains("appl"));
    assert!(!list.contains("apples"));
    let list = WordList::from_slice(&["aé", "zzz"]);
    assert_eq!(list.word_len(), 3);
    assert!(!list.contains("aé"));
    assert!(list.contains("zzz"));
}

#[test]
fn contains_on_a_list_of_one_and_of_two() {
    let list = WordList::from_slice(&["no"]);
    assert!(list.contains("no"));
    assert!(!list.contains("on"));
    let list = WordList::from_slice(&["no", "on"]);
    assert!(list.contains("no"));
    assert!(list.contains("on"));
    assert!(!list.contains("nn"));
    assert!(!list.contains("aa"));
    assert!(!list.contains("zz"));
}

#[test]
fn load_list_takes_the_first_line_as_measure() {
    let list = load_list("apple\n", &["grape", "lemon"]).unwrap();
    assert_eq!(list.word_len(), 5);
    assert_eq!(list.len(), 3);
    assert_eq!(list.get(0), Some(&b"apple"[..]));
    assert_eq!(list.get(2), Some(&b"lemon"[..]));
    assert!(list.contains("grape"));
}

#[test]
fn load_list_takes_the_last_character_off_the_first_line() {
    let list = load_list("apple", &[]).unwrap();
    assert_eq!(list.word_len(), 4);
    assert_eq!(list.get(0), Some(&b"appl"[..]));
    let list = load_list("abé", &["abc"]).unwrap();
    assert_eq!(list.word_len(), 2);
    assert_eq!(list.get(0), Some(&b"ab"[..]));
    let list = load_list("\n", &[]).unwrap();
    assert_eq!(list.word_len(), 0);
    assert!(list.is_empty());
}

#[test]
fn load_list_refuses_a_line_of_another_length() {
    match load_list("apple\n", &["grape", "fig", "kiwis!"]) {
        Err(Error::InequalLengths(5, 3)) => {}
        other => panic!("{:?}", other),
    }
    match load_list("apple\r\n", &["grape"]) {
        Err(Error::InequalLengths(6, 5)) => {}
        other => panic!("{:?}", other),
    }
    match load_list("apple\n", &["grape", ""]) {
        Err(Error::InequalLengths(5, 0)) => {}
        other => panic!("{:?}", other),
    }
}

#[test]
fn load_gives_both_lists() {
    let lists = load("apple\n", &["grape", "lemon"], "grape\n", &[]).unwrap();
    assert_eq!(lists.word_length, 5);
    assert_eq!(lists.dictionary.len(), 3);
    assert_eq!(lists.targets.len(), 1);
    assert!(lists.targets.contains("grape"));
}

#[test]
fn load_refuses_lists_of_different_lengths() {
    match load("apple\n", &["grape"], "fig\n", &["yam"]) {
        Err(Error::InequalLengths(5, 3)) => {}
        other => panic!("{:?}", other),
    }
    match load("apple\n", &["fig"], "fig\n", &["yams"]) {
        Err(Error::InequalLengths(5, 3)) => {}
        other => panic!("{:?}", other),
    }
    match load("apple\n", &["grape"], "fig\n", &["yams"]) {
        Err(Error::InequalLengths(3, 4)) => {}
        other => panic!("{:?}", other),
    }
}

#[test]
fn choose_target_word_picks_from_the_list() {
    let list = fruits();
    for _ in 0..50 {
        let word = choose_target_word(&list);
        assert!(list.contains(std::str::from_utf8(word).unwrap()));
    }
    let one = WordList::from_slice(&["only"]);
    assert_eq!(choose_target_word(&one), b"only");
}

#[test]
fn a_game_answers_guesses() {
    let list = fruits();
    let mut game = Game::new(&list, "lemon", 3);
    match game.guess("melon") {
        Response::InvalidGuess => {}
        other => panic!("{:?}", other),
    }
    match game.guess("mango") {
        Response::Hint(hints) => assert_eq!(
            hints,
            vec![
                Status::Misplaced,
                Status::Incorrect,
                Status::Misplaced,
                Status::Incorrect,
                Status::Misplaced
            ]
        ),
        other => panic!("{:?}", other),
    }
    match game.guess("lemon") {
        Response::Correct => {}
        other => panic!("{:?}", other),
    }
    match game.guess("peach") {
        Response::Hint(hints) => assert_eq!(
            hints,
            vec![
                Status::Incorrect,
                Status::Correct,
                Status::Incorrect,
                Status::Incorrect,
                Status::Incorrect
            ]
        ),
        other => panic!("{:?}", other),
    }
    match game.guess("lemon") {
        Response::TooManyGuesses => {}
        other => panic!("{:?}", other),
    }
    match game.guess("nonsense") {
        Response::TooManyGuesses => {}
        other => panic!("{:?}", other),
    }
}

#[test]
fn a_repeated_letter_is_marked_each_time() {
    let list = WordList::from_slice(&["abbey", "belle", "eerie"]);
    let mut game = Game::new(&list, "abbey", 9);
    match game.guess("eerie") {
        Response::Hint(hints) => assert_eq!(
            hints,
            vec![
                Status::Misplaced,
                Status::Misplaced,
                Status::Incorrect,
                Status::Incorrect,
                Status::Misplaced
            ]
        ),
        other => panic!("{:?}", other),
    }
    match game.guess("belle") {
        Response::Hint(hints) => assert_eq!(
            hints,
            vec![
                Status::Misplaced,
                Status::Misplaced,
                Status::Incorrect,
                Status::Incorrect,
                Status::Misplaced
            ]
        ),
        other => panic!("{:?}", other),
    }
}

#[test]
fn an_invalid_guess_costs_nothing() {
    let list = fruits();
    let mut game = Game::new(&list, "lemon", 1);
    for guess in ["", "melon", "lemons", "LEMON"] {
        match game.guess(guess) {
            Response::InvalidGuess => {}
            other => panic!("{:?}", other),
        }
    }
    match game.guess("lemon") {
        Response::Correct => {}
        other => panic!("{:?}", other),
    }
    match game.guess("melon") {
        Response::TooManyGuesses => {}
        other => panic!("{:?}", other),
    }
}

#[test]
fn a_game_from_word_lists_has_a_target_of_the_targets() {
    let lists = WordLists {
        dictionary: fruits(),
        targets: WordList::from_slice(&["grape", "mango"]),
        word_length: 5,
    };
    for _ in 0..20 {
        let mut game = Game::from_word_lists(&lists, 2);
        let first = matches!(game.guess("grape"), Response::Correct);
        let second = matches!(game.guess("mango"), Response::Correct);
        assert!(first != second);
        assert!(matches!(game.guess("grape"), Response::TooManyGuesses));
    }
}

#[test]
fn contains_halves_an_unsorted_list_all_the_same() {
    let list = WordList::from_slice(&["zz", "aa", "mm"]);
    // the middle word is found at once, the last after the upper half is taken
    assert!(list.contains("aa"));
    assert!(list.contains("mm"));
    // the first word stands below the middle, where halving does not look for it
    assert!(!list.contains("zz"));
    assert!(!list.contains("bb"));
}

#[test]
fn a_guess_that_halving_does_not_find_is_invalid() {
    let list = WordList::from_slice(&["zz", "aa", "mm"]);
    let mut game = Game::new(&list, "mm", 3);
    assert!(matches!(game.guess("zz"), Response::InvalidGuess));
    assert!(matches!(game.guess("aa"), Response::Hint(_)));
    assert!(matches!(game.guess("mm"), Response::Correct));
    assert!(matches!(game.guess("zz"), Response::InvalidGuess));
    assert!(matches!(game.guess("aa"), Response::Hint(_)));
    assert!(matches!(game.guess("aa"), Response::TooManyGuesses));
}

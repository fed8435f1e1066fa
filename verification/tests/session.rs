use hangman::session::{GameSession, GuessResult};

fn session(word: &str, max_fails: u64) -> GameSession {
    GameSession::new(String::from(word), max_fails)
}

#[test]
fn initial_mask_hides_letters() {
    let s = session("CAT", 10);
    assert_eq!(s.underscore_string(), "___");
    assert_eq!(s.fails(), 0);
    assert_eq!(s.max_fails(), 10);
    assert_eq!(s.word(), "CAT");
    assert_eq!(s.guessed_letters(), "");
}

#[test]
fn initial_mask_shows_symbols() {
    let s = session("C++", 10);
    assert_eq!(s.underscore_string(), "_++");
    let s = session("RISC-V", 10);
    assert_eq!(s.underscore_string(), "____-_");
    let s = session("Forward-Search", 10);
    assert_eq!(s.underscore_string(), "_______-______");
}

#[test]
fn correct_guess_reveals_all_occurrences() {
    let mut s = session("Taschenratte", 10);
    let r = s.guess_char('t');
    assert_eq!(r, GuessResult::Continue);
    assert_eq!(s.fails(), 0);
    assert_eq!(s.underscore_string(), "T________tt_");
}

#[test]
fn letter_guess_is_case_insensitive() {
    let mut s = session("CAT", 10);
    let r = s.guess_char('c');
    assert_eq!(r, GuessResult::Continue);
    assert_eq!(s.fails(), 0);
    assert_eq!(s.underscore_string(), "C__");
}

#[test]
fn wrong_guess_increments_fails_and_reveals_nothing() {
    let mut s = session("CAT", 10);
    let r = s.guess_char('z');
    assert_eq!(r, GuessResult::Continue);
    assert_eq!(s.fails(), 1);
    assert_eq!(s.underscore_string(), "___");
}

#[test]
fn word_guess_any_case_wins_even_on_last_fail() {
    let mut s = session("CAT", 3);
    assert_eq!(s.guess_char('x'), GuessResult::Continue);
    assert_eq!(s.guess_char('y'), GuessResult::Continue);
    assert_eq!(s.fails(), 2);
    let r = s.guess_word("cAt");
    assert_eq!(r, GuessResult::Won);
    assert_eq!(s.fails(), 2);
}

#[test]
fn wrong_word_guess_costs_a_fail() {
    let mut s = session("CAT", 10);
    let r = s.guess_word("dog");
    assert_eq!(r, GuessResult::Continue);
    assert_eq!(s.fails(), 1);
    assert_eq!(s.underscore_string(), "___");
}

#[test]
fn lost_exactly_when_fails_reach_limit() {
    let mut s = session("CAT", 3);
    assert_eq!(s.guess_char('x'), GuessResult::Continue);
    assert_eq!(s.fails(), 1);
    assert_eq!(s.guess_word("dog"), GuessResult::Continue);
    assert_eq!(s.fails(), 2);
    assert_eq!(s.guess_char('q'), GuessResult::Lost);
    assert_eq!(s.fails(), 3);
}

#[test]
fn display_is_sorted_and_stable() {
    let mut s1 = session("CAT", 10);
    s1.guess_char('b');
    s1.guess_char('a');
    let mut s2 = session("CAT", 10);
    s2.guess_char('a');
    s2.guess_char('b');
    assert_eq!(s1.guessed_letters(), " a b");
    assert_eq!(s2.guessed_letters(), " a b");
    let mut s3 = session("CAT", 10);
    s3.guess_char('c');
    s3.guess_char('a');
    s3.guess_char('b');
    assert_eq!(s3.guessed_letters(), " a b c");
}

#[test]
fn uppercase_guesses_are_recorded_lowercase() {
    let mut s = session("CAT", 10);
    s.guess_char('T');
    s.guess_char('C');
    assert_eq!(s.guessed_letters(), " c t");
    assert_eq!(s.underscore_string(), "C_T");
}

#[test]
fn repeated_correct_guess_changes_nothing() {
    let mut s = session("CAT", 10);
    assert_eq!(s.guess_char('a'), GuessResult::Continue);
    let fails = s.fails();
    let mask = s.underscore_string();
    let shown = s.guessed_letters();
    assert_eq!(s.guess_char('a'), GuessResult::Continue);
    assert_eq!(s.fails(), fails);
    assert_eq!(s.underscore_string(), mask);
    assert_eq!(s.guessed_letters(), shown);
}

#[test]
fn repeated_wrong_guess_costs_a_fail_each_time() {
    let mut s = session("CAT", 10);
    assert_eq!(s.guess_char('z'), GuessResult::Continue);
    assert_eq!(s.guess_char('z'), GuessResult::Continue);
    assert_eq!(s.fails(), 2);
    assert_eq!(s.guessed_letters(), " z");
    assert_eq!(s.underscore_string(), "___");
}

#[test]
fn unicode_letters_compare_case_insensitively() {
    let mut s = session("Übung", 10);
    assert_eq!(s.underscore_string(), "_____");
    assert_eq!(s.guess_char('ü'), GuessResult::Continue);
    assert_eq!(s.fails(), 0);
    assert_eq!(s.underscore_string(), "Ü____");
    let mut s = session("Übung", 10);
    assert_eq!(s.guess_word("ÜBUNG"), GuessResult::Won);
}

#[test]
fn generate_uses_the_given_word_list() {
    let words = vec![String::from("Socket")];
    let s = GameSession::generate(&words, 10);
    assert_eq!(s.word(), "Socket");
    assert_eq!(s.fails(), 0);
    assert_eq!(s.max_fails(), 10);
    assert_eq!(s.guessed_letters(), "");
}

#[test]
fn generate_picks_a_word_from_the_list() {
    let words = vec![
        String::from("Socket"),
        String::from("Oktober"),
        String::from("Client"),
    ];
    for _ in 0..20 {
        let s = GameSession::generate(&words, 10);
        assert!(words.iter().any(|w| w == s.word()));
    }
}

#[test]
fn apply_guess_trims_and_classifies_a_letter() {
    let mut s = session("CAT", 10);
    assert_eq!(s.apply_guess("  z \n"), GuessResult::Continue);
    assert_eq!(s.fails(), 1);
    assert_eq!(s.guessed_letters(), " z");
}

#[test]
fn apply_guess_treats_longer_input_as_word() {
    let mut s = session("CAT", 10);
    assert_eq!(s.apply_guess(" cat \r\n"), GuessResult::Won);
    assert_eq!(s.fails(), 0);
}

#[test]
fn empty_input_is_a_failing_word_guess() {
    let mut s = session("CAT", 10);
    assert_eq!(s.apply_guess("   \n"), GuessResult::Continue);
    assert_eq!(s.fails(), 1);
    assert_eq!(s.guessed_letters(), "");
}

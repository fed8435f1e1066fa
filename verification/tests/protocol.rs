use hangman::protocol::{prompt_line, round_start_line, status_line, terminal_line, u64_to_string};
use hangman::session::{GameSession, GuessResult};

#[test]
fn numbers_render_in_decimal() {
    assert_eq!(u64_to_string(0), "0");
    assert_eq!(u64_to_string(7), "7");
    assert_eq!(u64_to_string(10), "10");
    assert_eq!(u64_to_string(1337), "1337");
    assert_eq!(u64_to_string(u64::MAX), "18446744073709551615");
}

#[test]
fn status_line_has_the_wire_format() {
    let mut s = GameSession::new(String::from("CAT"), 10);
    s.guess_char('z');
    s.guess_char('a');
    assert_eq!(
        status_line(&s),
        "Aktueller Stand: _A_. Versuche: 1/10. Bereits geraten: a z\n"
    );
}

#[test]
fn status_line_of_a_fresh_session() {
    let s = GameSession::new(String::from("C++"), 10);
    assert_eq!(
        status_line(&s),
        "Aktueller Stand: _++. Versuche: 0/10. Bereits geraten:\n"
    );
}

#[test]
fn fixed_lines_are_exact() {
    assert_eq!(prompt_line(), "Rate einen Buchstaben oder ein Wort.\n");
    assert_eq!(round_start_line(), "Eine neue Runde beginnt.\n");
}

#[test]
fn terminal_lines_reveal_the_word() {
    let s = GameSession::new(String::from("CAT"), 10);
    assert_eq!(
        terminal_line(GuessResult::Won, &s),
        "\nGewonnen. Das Wort war CAT.\n\n"
    );
    assert_eq!(
        terminal_line(GuessResult::Lost, &s),
        "\nVerloren. Skill Issue. Das Wort war CAT.\n\n"
    );
}

#[test]
fn scenario_cat_round_is_lost() {
    let mut s = GameSession::new(String::from("CAT"), 2);
    assert_eq!(s.apply_guess("z"), GuessResult::Continue);
    assert_eq!(s.fails(), 1);
    assert_eq!(s.underscore_string(), "___");
    assert_eq!(s.apply_guess("c"), GuessResult::Continue);
    assert_eq!(s.fails(), 1);
    assert_eq!(s.underscore_string(), "C__");
    let r = s.apply_guess("x");
    assert_eq!(r, GuessResult::Lost);
    assert_eq!(s.fails(), 2);
    assert_eq!(
        terminal_line(r, &s),
        "\nVerloren. Skill Issue. Das Wort war CAT.\n\n"
    );
}

#[test]
fn scenario_cpp_round_is_won_at_once() {
    let mut s = GameSession::new(String::from("C++"), 10);
    let r = s.apply_guess("c++");
    assert_eq!(r, GuessResult::Won);
    assert_eq!(s.fails(), 0);
    assert_eq!(terminal_line(r, &s), "\nGewonnen. Das Wort war C++.\n\n");
}

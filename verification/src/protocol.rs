//! The lines of the wire protocol: the status broadcast, the prompt, the
//! round-start notice and the terminal message of a round. Every line is
//! specified character by character, so a caller knows exactly what goes
//! out to the players.

use crate::session::{joined, GameSession, GuessResult};
use crate::text::push_char;
use vstd::prelude::*;
use vstd::string::StringExecFns;

verus! {

/// The decimal digit character of a value below ten.
pub open spec fn dec_digit(d: int) -> char {
    if d == 0 {
        '0'
    } else if d == 1 {
        '1'
    } else if d == 2 {
        '2'
    } else if d == 3 {
        '3'
    } else if d == 4 {
        '4'
    } else if d == 5 {
        '5'
    } else if d == 6 {
        '6'
    } else if d == 7 {
        '7'
    } else if d == 8 {
        '8'
    } else {
        '9'
    }
}

/// The decimal rendering of a non-negative number, most significant digit
/// first, without leading zeros (a lone zero for zero itself).
pub open spec fn dec_str(n: int) -> Seq<char>
    decreases n,
{
    if n < 10 {
        seq![dec_digit(n)]
    } else {
        dec_str(n / 10).push(dec_digit(n % 10))
    }
}

fn digit_char(d: u64) -> (c: char)
    requires
        d < 10,
    ensures
        c == dec_digit(d as int),
{
    match d {
        0 => '0',
        1 => '1',
        2 => '2',
        3 => '3',
        4 => '4',
        5 => '5',
        6 => '6',
        7 => '7',
        8 => '8',
        _ => '9',
    }
}

/// Renders a number in decimal.
pub fn u64_to_string(n: u64) -> (r: String)
    ensures
        r@ == dec_str(n as int),
    decreases n,
{
    if n < 10 {
        let mut s = String::new();
        push_char(&mut s, digit_char(n));
        proof {
            assert(s@ =~= dec_str(n as int));
        }
        s
    } else {
        let mut s = u64_to_string(n / 10);
        push_char(&mut s, digit_char(n % 10));
        s
    }
}

/// The status line sent to every player: masked progress, failure count
/// against the limit, and the sorted guessed letters.
pub open spec fn status_line_spec(s: GameSession) -> Seq<char> {
    "Aktueller Stand: "@ + s.masked_spec() + ". Versuche: "@ + dec_str(s.fails as int) + "/"@
        + dec_str(s.max_fails as int) + ". Bereits geraten:"@ + joined(s.guessed@) + "\n"@
}

/// Composes the status line of the session's current state.
pub fn status_line(s: &GameSession) -> (r: String)
    ensures
        r@ == status_line_spec(*s),
{
    let mut out = String::from_str("Aktueller Stand: ");
    out.append(s.underscore_string().as_str());
    out.append(". Versuche: ");
    out.append(u64_to_string(s.fails()).as_str());
    out.append("/");
    out.append(u64_to_string(s.max_fails()).as_str());
    out.append(". Bereits geraten:");
    out.append(s.guessed_letters().as_str());
    out.append("\n");
    proof {
        assert(out@ =~= status_line_spec(*s));
    }
    out
}

/// The fixed prompt asking the current player for a guess.
pub fn prompt_line() -> (r: String)
    ensures
        r@ == "Rate einen Buchstaben oder ein Wort.\n"@,
{
    String::from_str("Rate einen Buchstaben oder ein Wort.\n")
}

/// The fixed notice that a new round begins.
pub fn round_start_line() -> (r: String)
    ensures
        r@ == "Eine neue Runde beginnt.\n"@,
{
    String::from_str("Eine neue Runde beginnt.\n")
}

/// The terminal message of a won round, revealing the word.
pub open spec fn win_line_spec(word: Seq<char>) -> Seq<char> {
    "\nGewonnen. Das Wort war "@ + word + ".\n\n"@
}

/// The terminal message of a lost round, revealing the word.
pub open spec fn loss_line_spec(word: Seq<char>) -> Seq<char> {
    "\nVerloren. Skill Issue. Das Wort war "@ + word + ".\n\n"@
}

/// Composes the terminal broadcast of a round from its final result:
/// victory or defeat, each revealing the secret word. Only a terminal
/// result has such a message.
pub fn terminal_line(result: GuessResult, s: &GameSession) -> (r: String)
    requires
        result != GuessResult::Continue,
    ensures
        result == GuessResult::Won ==> r@ == win_line_spec(s.word@),
        result == GuessResult::Lost ==> r@ == loss_line_spec(s.word@),
{
    let mut out = if result == GuessResult::Won {
        String::from_str("\nGewonnen. Das Wort war ")
    } else {
        String::from_str("\nVerloren. Skill Issue. Das Wort war ")
    };
    out.append(s.word());
    out.append(".\n\n");
    proof {
        if result == GuessResult::Won {
            assert(out@ =~= win_line_spec(s.word@));
        } else {
            assert(out@ =~= loss_line_spec(s.word@));
        }
    }
    out
}

} // verus!

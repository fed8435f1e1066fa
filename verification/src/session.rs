//! The game session of one round: the secret word, the guessed letters and
//! the failure count, together with the rules that classify a guess.

use crate::text::{
    is_alnum, is_alnum_of, lower_char, lower_char_of, lower_of, lower_str, push_char, trim_str,
    trimmed,
};
use vstd::prelude::*;
use vstd::string::StrSliceExecFns;

verus! {

/// Outcome of a guess. `Continue` is the only non-terminal value: the round
/// ends the moment a guess is classified `Won` or `Lost`.
#[derive(Clone, Copy, Debug, PartialEq, Eq, Structural)]
pub enum GuessResult {
    Won,
    Lost,
    Continue,
}

/// A strictly increasing character sequence: sorted and free of duplicates.
pub open spec fn sorted_strict(s: Seq<char>) -> bool {
    forall|i: int, j: int| 0 <= i < j < s.len() ==> s[i] < s[j]
}

/// The classification an incorrect guess receives: `Lost` once the failure
/// count has reached the limit, `Continue` below it.
pub open spec fn loss_check_spec(fails: u64, max_fails: u64) -> GuessResult {
    if fails >= max_fails {
        GuessResult::Lost
    } else {
        GuessResult::Continue
    }
}

/// The space-joined rendering of a character sequence: one space before
/// every character, as the guessed-letters display shows them.
pub open spec fn joined(s: Seq<char>) -> Seq<char>
    decreases s.len(),
{
    if s.len() == 0 {
        Seq::empty()
    } else {
        joined(s.drop_last()).push(' ').push(s.last())
    }
}

/// One round's session: an immutable secret word, the set of guessed
/// letters (held in canonical, strictly sorted form) and the failure count
/// against its fixed limit.
pub struct GameSession {
    pub word: String,
    pub fails: u64,
    pub max_fails: u64,
    pub guessed: Vec<char>,
}

impl GameSession {
    /// The set of guessed letters, each in its lowercase form.
    pub open spec fn guessed_set(self) -> Set<char> {
        self.guessed@.to_set()
    }

    /// Well-formedness: a positive limit not yet exceeded, a non-empty
    /// word, and the guessed letters in canonical sorted order.
    pub open spec fn wf(self) -> bool {
        &&& 1 <= self.max_fails
        &&& self.fails <= self.max_fails
        &&& sorted_strict(self.guessed@)
        &&& self.word@.len() > 0
    }

    /// The round is still running: no loss has been reached yet. Guesses
    /// are only applied to a session in play; the turn loop stops at the
    /// first terminal result.
    pub open spec fn in_play(self) -> bool {
        self.fails < self.max_fails
    }

    /// Whether the letter occurs in the word, compared case-insensitively.
    pub open spec fn word_has(self, c: char) -> bool {
        exists|i: int|
            0 <= i < self.word@.len() && lower_char_of(self.word@[i]) == lower_char_of(c)
    }

    /// Whether the character at position `i` of the word is shown: symbols
    /// are always shown, letters and digits once guessed.
    pub open spec fn revealed_at(self, i: int) -> bool {
        ||| !is_alnum_of(self.word@[i])
        ||| self.guessed_set().contains(lower_char_of(self.word@[i]))
    }

    /// The masked rendering of the word: each hidden position becomes `_`.
    pub open spec fn masked_spec(self) -> Seq<char> {
        Seq::new(
            self.word@.len(),
            |i: int| if self.revealed_at(i) { self.word@[i] } else { '_' },
        )
    }

    /// Builds a fresh session around the given secret word: no guesses, no
    /// failures.
    pub fn new(word: String, max_fails: u64) -> (s: GameSession)
        requires
            word@.len() > 0,
            1 <= max_fails,
        ensures
            s.word@ == word@,
            s.fails == 0,
            s.max_fails == max_fails,
            s.guessed@ == Seq::<char>::empty(),
            s.wf(),
            s.in_play(),
    {
        GameSession { word, fails: 0, max_fails, guessed: Vec::new() }
    }

    /// Starts a round: draws a word at random from the list and builds a
    /// fresh session around it. The word list must not be empty.
    pub fn generate(words: &Vec<String>, max_fails: u64) -> (s: GameSession)
        requires
            words@.len() > 0,
            forall|i: int| 0 <= i < words@.len() ==> #[trigger] words@[i]@.len() > 0,
            1 <= max_fails,
        ensures
            s.fails == 0,
            s.max_fails == max_fails,
            s.guessed@ == Seq::<char>::empty(),
            exists|i: int| 0 <= i < words@.len() && s.word@ == #[trigger] words@[i]@,
            s.wf(),
            s.in_play(),
    {
        let i = random_below(words.len());
        let word = words[i].clone();
        GameSession::new(word, max_fails)
    }

    /// Whether the letter occurs in the word, compared case-insensitively.
    fn word_contains_letter(&self, c: char) -> (r: bool)
        ensures
            r == self.word_has(c),
    {
        let lc = lower_char(c);
        let n = self.word.as_str().unicode_len();
        let mut i: usize = 0;
        while i < n
            invariant
                n == self.word@.len(),
                i <= n,
                lc == lower_char_of(c),
                forall|j: int| 0 <= j < i ==> lower_char_of(#[trigger] self.word@[j]) != lower_char_of(c),
            decreases n - i,
        {
            let wc = self.word.as_str().get_char(i);
            if lower_char(wc) == lc {
                return true;
            }
            i += 1;
        }
        false
    }

    /// Whether the (already lowercased) letter has been guessed before.
    fn has_guessed(&self, lc: char) -> (r: bool)
        ensures
            r == self.guessed_set().contains(lc),
    {
        let mut i: usize = 0;
        while i < self.guessed.len()
            invariant
                i <= self.guessed@.len(),
                forall|j: int| 0 <= j < i ==> #[trigger] self.guessed@[j] != lc,
            decreases self.guessed@.len() - i,
        {
            if self.guessed[i] == lc {
                return true;
            }
            i += 1;
        }
        false
    }

    /// Classifies the current failure count against the limit.
    fn check_loss(&self) -> (r: GuessResult)
        ensures
            r == loss_check_spec(self.fails, self.max_fails),
    {
        if self.fails >= self.max_fails {
            GuessResult::Lost
        } else {
            GuessResult::Continue
        }
    }

    /// Applies a single-letter guess: records the lowercased letter, then
    /// classifies. A letter of the word continues the round without a
    /// failure; any other letter costs one failure and loses the round if
    /// it was the last one allowed.
    pub fn guess_char(&mut self, c: char) -> (r: GuessResult)
        requires
            old(self).wf(),
            old(self).in_play(),
        ensures
            final(self).word@ == old(self).word@,
            final(self).max_fails == old(self).max_fails,
            final(self).guessed_set() == old(self).guessed_set().insert(lower_char_of(c)),
            final(self).wf(),
            old(self).word_has(c) ==> final(self).fails == old(self).fails
                && r == GuessResult::Continue,
            !old(self).word_has(c) ==> final(self).fails == old(self).fails + 1
                && r == loss_check_spec(final(self).fails, final(self).max_fails),
            r != GuessResult::Won,
    {
        let lc = lower_char(c);
        insert_guess(&mut self.guessed, lc);
        if self.word_contains_letter(c) {
            GuessResult::Continue
        } else {
            self.fails = self.fails + 1;
            self.check_loss()
        }
    }

    /// Applies a whole-word guess, compared case-insensitively against the
    /// secret word: equality wins the round at once, whatever the failure
    /// count; anything else costs one failure and loses the round if it
    /// was the last one allowed. The guessed letters are untouched.
    pub fn guess_word(&mut self, s: &str) -> (r: GuessResult)
        requires
            old(self).wf(),
            old(self).in_play(),
        ensures
            final(self).word@ == old(self).word@,
            final(self).max_fails == old(self).max_fails,
            final(self).guessed@ == old(self).guessed@,
            final(self).wf(),
            lower_of(s@) == lower_of(old(self).word@) ==> r == GuessResult::Won
                && final(self).fails == old(self).fails,
            lower_of(s@) != lower_of(old(self).word@) ==> final(self).fails == old(self).fails + 1
                && r == loss_check_spec(final(self).fails, final(self).max_fails),
    {
        let ls = lower_str(s);
        let lw = lower_str(self.word.as_str());
        if ls == lw {
            GuessResult::Won
        } else {
            self.fails = self.fails + 1;
            self.check_loss()
        }
    }

    /// Renders the masked progress: the word with every unguessed letter or
    /// digit replaced by `_`, non-alphanumeric characters always visible.
    pub fn underscore_string(&self) -> (r: String)
        ensures
            r@ == self.masked_spec(),
    {
        let mut out = String::new();
        let n = self.word.as_str().unicode_len();
        let mut i: usize = 0;
        while i < n
            invariant
                n == self.word@.len(),
                i <= n,
                out@ == self.masked_spec().take(i as int),
            decreases n - i,
        {
            let c = self.word.as_str().get_char(i);
            let show = if is_alnum(c) { self.has_guessed(lower_char(c)) } else { true };
            if show {
                push_char(&mut out, c);
            } else {
                push_char(&mut out, '_');
            }
            i += 1;
            proof {
                assert(out@ =~= self.masked_spec().take(i as int));
            }
        }
        proof {
            assert(self.masked_spec().take(n as int) =~= self.masked_spec());
        }
        out
    }

    /// One turn's guess: trims the input line, treats a single remaining
    /// character as a letter guess and anything else (the empty line
    /// included) as a whole-word guess, and applies it.
    pub fn apply_guess(&mut self, line: &str) -> (r: GuessResult)
        requires
            old(self).wf(),
            old(self).in_play(),
        ensures
            final(self).word@ == old(self).word@,
            final(self).max_fails == old(self).max_fails,
            final(self).wf(),
            ({
                let g = trimmed(line@);
                &&& g.len() == 1 ==> {
                    &&& final(self).guessed_set() == old(self).guessed_set().insert(
                        lower_char_of(g[0]),
                    )
                    &&& old(self).word_has(g[0]) ==> final(self).fails == old(self).fails
                        && r == GuessResult::Continue
                    &&& !old(self).word_has(g[0]) ==> final(self).fails == old(self).fails + 1
                        && r == loss_check_spec(final(self).fails, final(self).max_fails)
                }
                &&& g.len() != 1 ==> {
                    &&& final(self).guessed@ == old(self).guessed@
                    &&& lower_of(g) == lower_of(old(self).word@) ==> r == GuessResult::Won
                        && final(self).fails == old(self).fails
                    &&& lower_of(g) != lower_of(old(self).word@) ==> final(self).fails == old(
                        self,
                    ).fails + 1 && r == loss_check_spec(final(self).fails, final(self).max_fails)
                }
            }),
    {
        let t = trim_str(line);
        if t.unicode_len() == 1 {
            let c = t.get_char(0);
            self.guess_char(c)
        } else {
            self.guess_word(t)
        }
    }

    /// The current failure count.
    pub fn fails(&self) -> (r: u64)
        ensures
            r == self.fails,
    {
        self.fails
    }

    /// The failure limit of this session.
    pub fn max_fails(&self) -> (r: u64)
        ensures
            r == self.max_fails,
    {
        self.max_fails
    }

    /// The secret word.
    pub fn word(&self) -> (r: &str)
        ensures
            r@ == self.word@,
    {
        self.word.as_str()
    }

    /// The guessed letters, sorted, each preceded by a space.
    pub fn guessed_letters(&self) -> (r: String)
        ensures
            r@ == joined(self.guessed@),
    {
        let mut out = String::new();
        let mut i: usize = 0;
        while i < self.guessed.len()
            invariant
                i <= self.guessed@.len(),
                out@ == joined(self.guessed@.take(i as int)),
            decreases self.guessed@.len() - i,
        {
            push_char(&mut out, ' ');
            push_char(&mut out, self.guessed[i]);
            i += 1;
            proof {
                let t = self.guessed@.take(i as int);
                assert(t.drop_last() =~= self.guessed@.take(i - 1));
                assert(out@ == joined(t));
            }
        }
        proof {
            assert(self.guessed@.take(self.guessed@.len() as int) =~= self.guessed@);
        }
        out
    }
}

/// Law: with no letters guessed yet, the masked progress hides exactly the
/// alphanumeric characters of the word, each as `_`, and shows every other
/// character unchanged.
pub proof fn lemma_initial_mask(s: GameSession)
    requires
        s.guessed_set() == Set::<char>::empty(),
    ensures
        s.masked_spec().len() == s.word@.len(),
        forall|i: int|
            0 <= i < s.word@.len() ==> s.masked_spec()[i] == (if is_alnum_of(#[trigger] s.word@[i]) {
                '_'
            } else {
                s.word@[i]
            }),
{
}

/// Law: a guess of a letter that occurs in the word reveals every
/// occurrence of that letter, compared case-insensitively, in the masked
/// progress. The two sessions are related exactly as `guess_char` relates
/// its old and new state; that the failure count is unchanged for such a
/// letter is part of `guess_char`'s own contract.
pub proof fn lemma_correct_guess_reveals(s1: GameSession, s2: GameSession, c: char)
    requires
        s2.word@ == s1.word@,
        s2.guessed_set() == s1.guessed_set().insert(lower_char_of(c)),
    ensures
        forall|i: int|
            0 <= i < s2.word@.len() && lower_char_of(#[trigger] s2.word@[i]) == lower_char_of(c)
                ==> s2.masked_spec()[i] == s2.word@[i],
{
}

/// Law: a guess of a letter that occurs nowhere in the word reveals no
/// position: the masked progress stays exactly what it was. That the
/// failure count rises by exactly one is part of `guess_char`'s own
/// contract.
pub proof fn lemma_wrong_guess_reveals_nothing(s1: GameSession, s2: GameSession, c: char)
    requires
        s2.word@ == s1.word@,
        s2.guessed_set() == s1.guessed_set().insert(lower_char_of(c)),
        !s1.word_has(c),
    ensures
        s2.masked_spec() == s1.masked_spec(),
{
    assert forall|i: int| 0 <= i < s2.word@.len() implies s2.revealed_at(i) == s1.revealed_at(
        i,
    ) by {
        assert(lower_char_of(s1.word@[i]) != lower_char_of(c));
    }
    assert(s2.masked_spec() =~= s1.masked_spec());
}

/// Law: an incorrect guess is classified `Lost` exactly when it lifts the
/// failure count to the limit, and `Continue` strictly below it. Since a
/// fresh session starts at zero failures and every incorrect guess adds
/// exactly one (the contracts of `generate`, `guess_char` and
/// `guess_word`), a round is lost precisely on the incorrect guess that
/// makes the count reach the limit, and never before.
pub proof fn lemma_lost_exactly_at_limit(fails: u64, max_fails: u64)
    requires
        fails < max_fails,
    ensures
        loss_check_spec((fails + 1) as u64, max_fails) == GuessResult::Lost <==> fails + 1
            == max_fails,
        loss_check_spec((fails + 1) as u64, max_fails) == GuessResult::Continue <==> fails + 1
            < max_fails,
{
}

/// Two strictly sorted character sequences holding the same set of
/// characters are the same sequence.
pub proof fn lemma_sorted_unique_same_set(a: Seq<char>, b: Seq<char>)
    requires
        sorted_strict(a),
        sorted_strict(b),
        a.to_set() == b.to_set(),
    ensures
        a == b,
    decreases a.len(),
{
    if a.len() == 0 {
        if b.len() > 0 {
            assert(b.contains(b[0]));
            assert(b.to_set().contains(b[0]));
            assert(a.to_set().contains(b[0]));
            assert(false);
        }
        assert(a =~= b);
    } else {
        assert(a.contains(a[0]));
        assert(b.to_set().contains(a[0]));
        if b.len() == 0 {
            assert(false);
        }
        assert(b.contains(b[0]));
        assert(a.to_set().contains(b[0]));
        let i = choose|i: int| 0 <= i < a.len() && a[i] == b[0];
        let j = choose|j: int| 0 <= j < b.len() && b[j] == a[0];
        assert(a[0] <= a[i] && b[0] <= b[j]);
        assert(a[0] == b[0]);
        let ta = a.drop_first();
        let tb = b.drop_first();
        assert forall|x: char| ta.to_set().contains(x) implies tb.to_set().contains(x) by {
            lemma_tail_membership(a, x);
            assert(a.to_set().contains(x) && x != a[0]);
            lemma_tail_membership(b, x);
        }
        assert forall|x: char| tb.to_set().contains(x) implies ta.to_set().contains(x) by {
            lemma_tail_membership(b, x);
            assert(b.to_set().contains(x) && x != b[0]);
            lemma_tail_membership(a, x);
        }
        assert(ta.to_set() =~= tb.to_set());
        lemma_sorted_unique_same_set(ta, tb);
        assert(a.len() == b.len());
        assert forall|i: int| 0 <= i < a.len() implies a[i] == b[i] by {
            if i > 0 {
                assert(ta[i - 1] == a[i]);
                assert(tb[i - 1] == b[i]);
            }
        }
        assert(a =~= b);
    }
}

/// In a strictly sorted non-empty sequence, a character is in the tail's
/// set exactly when it is in the whole set and differs from the head.
proof fn lemma_tail_membership(s: Seq<char>, x: char)
    requires
        sorted_strict(s),
        s.len() > 0,
    ensures
        s.drop_first().to_set().contains(x) <==> s.to_set().contains(x) && x != s[0],
{
    let t = s.drop_first();
    if t.contains(x) {
        let k = choose|k: int| 0 <= k < t.len() && t[k] == x;
        assert(s[k + 1] == x);
        assert(s.contains(x));
        assert(s[0] < s[k + 1]);
    }
    if s.contains(x) && x != s[0] {
        let k = choose|k: int| 0 <= k < s.len() && s[k] == x;
        assert(k != 0);
        assert(t[k - 1] == x);
        assert(t.contains(x));
    }
}

/// Law: the guessed-letters display is canonical. Two sessions that hold
/// the same set of guessed letters render the same sorted display,
/// whatever the order in which the letters were guessed.
pub proof fn lemma_display_canonical(s1: GameSession, s2: GameSession)
    requires
        s1.wf(),
        s2.wf(),
        s1.guessed_set() == s2.guessed_set(),
    ensures
        joined(s1.guessed@) == joined(s2.guessed@),
{
    lemma_sorted_unique_same_set(s1.guessed@, s2.guessed@);
}

/// The shape of the guessed-letters display: a space before each letter,
/// the letters themselves in their stored order — sorted, for a
/// well-formed session.
pub proof fn lemma_joined_structure(s: Seq<char>)
    ensures
        joined(s).len() == 2 * s.len(),
        forall|j: int|
            0 <= j < joined(s).len() ==> #[trigger] joined(s)[j] == (if j % 2 == 0 {
                ' '
            } else {
                s[j / 2]
            }),
    decreases s.len(),
{
    if s.len() > 0 {
        let t = s.drop_last();
        lemma_joined_structure(t);
        assert forall|j: int|
            0 <= j < joined(s).len() implies #[trigger] joined(s)[j] == (if j % 2 == 0 {
            ' '
        } else {
            s[j / 2]
        }) by {
            if j < 2 * t.len() {
                assert(joined(s)[j] == joined(t)[j]);
                if j % 2 != 0 {
                    assert(t[j / 2] == s[j / 2]);
                }
            } else if j == 2 * t.len() {
                assert(joined(s)[j] == ' ');
            } else {
                assert(joined(s)[j] == s.last());
                assert(j / 2 == s.len() - 1);
            }
        }
    }
}

/// Law: guessing two letters in either order leaves the same set of
/// guessed letters behind, so by `lemma_display_canonical` the display is
/// the same either way.
pub proof fn lemma_guess_order_irrelevant(g: Set<char>, a: char, b: char)
    ensures
        g.insert(a).insert(b) == g.insert(b).insert(a),
{
    assert(g.insert(a).insert(b) =~= g.insert(b).insert(a));
}

/// Law: re-guessing an already-guessed letter leaves the guessed set, and
/// with it the masked progress, unchanged. For a letter that occurs in the
/// word, `guess_char`'s contract also leaves the failure count unchanged,
/// so repeating such a guess changes nothing at all. (A letter absent from
/// the word costs one failure on every repetition; only the set and the
/// mask are repetition-proof for it.)
pub proof fn lemma_repeated_guess_changes_nothing(s1: GameSession, s2: GameSession, c: char)
    requires
        s2.word@ == s1.word@,
        s1.guessed_set().contains(lower_char_of(c)),
        s2.guessed_set() == s1.guessed_set().insert(lower_char_of(c)),
    ensures
        s2.guessed_set() == s1.guessed_set(),
        s2.masked_spec() == s1.masked_spec(),
{
    assert(s2.guessed_set() =~= s1.guessed_set());
    assert(s2.masked_spec() =~= s1.masked_spec());
}

/// Relies on `rand::random_range`: returns a value drawn from the given
/// range, which must not be empty; every value of `0..n` is below `n`.
#[verifier::external_body]
fn random_below(n: usize) -> (r: usize)
    requires
        1 <= n,
    ensures
        r < n,
{
    rand::random_range(0..n)
}

/// Records a guessed letter, keeping the collection strictly sorted; a
/// letter guessed before changes nothing.
fn insert_guess(g: &mut Vec<char>, c: char)
    requires
        sorted_strict(old(g)@),
    ensures
        sorted_strict(final(g)@),
        final(g)@.to_set() == old(g)@.to_set().insert(c),
{
    let mut i: usize = 0;
    while i < g.len() && g[i] < c
        invariant
            i <= g@.len(),
            sorted_strict(g@),
            g@ == old(g)@,
            forall|j: int| 0 <= j < i ==> #[trigger] g@[j] < c,
        decreases g@.len() - i,
    {
        i += 1;
    }
    if i < g.len() && g[i] == c {
        proof {
            assert(g@.contains(c));
            assert(g@.to_set() =~= old(g)@.to_set().insert(c));
        }
        return;
    }
    proof {
        g@.insert_ensures(i as int, c);
    }
    g.insert(i, c);
    proof {
        let s0 = old(g)@;
        let s1 = g@;
        assert forall|p: int, q: int| 0 <= p < q < s1.len() implies s1[p] < s1[q] by {
            if p < i && q < i {
                assert(s1[p] == s0[p] && s1[q] == s0[q]);
            } else if p < i && q == i {
                assert(s1[p] == s0[p] && s1[q] == c);
            } else if p < i && q > i {
                assert(s1[p] == s0[p] && s1[q] == s0[q - 1]);
                if i < q - 1 {
                    assert(s0[i as int] < s0[q - 1]);
                } else {
                    assert(q - 1 == i);
                }
                assert(c <= s0[i as int] || i == s0.len());
            } else if p == i && q > i {
                assert(s1[p] == c && s1[q] == s0[q - 1]);
                assert(s0[i as int] <= s0[q - 1]);
                assert(c < s0[i as int] || c == s0[i as int] || s0[i as int] < c);
            } else {
                assert(s1[p] == s0[p - 1] && s1[q] == s0[q - 1]);
            }
        }
        assert forall|x: char| s1.to_set().contains(x) <==> s0.to_set().contains(x) || x == c by {
            if s1.contains(x) {
                let k = choose|k: int| 0 <= k < s1.len() && s1[k] == x;
                if k < i {
                    assert(s0[k] == x);
                    assert(s0.contains(x));
                } else if k == i {
                    assert(x == c);
                } else {
                    assert(s0[k - 1] == x);
                    assert(s0.contains(x));
                }
            }
            if s0.contains(x) {
                let k = choose|k: int| 0 <= k < s0.len() && s0[k] == x;
                if k < i {
                    assert(s1[k] == x);
                } else {
                    assert(s1[k + 1] == x);
                }
                assert(s1.contains(x));
            }
            if x == c {
                assert(s1[i as int] == c);
                assert(s1.contains(x));
            }
        }
        assert(s1.to_set() =~= s0.to_set().insert(c));
    }
}

} // verus!

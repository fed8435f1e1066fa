//! Character and string primitives for case-insensitive guessing.
//!
//! The game compares letters and words case-insensitively and treats
//! non-alphanumeric characters of the secret word as always revealed. The
//! Unicode case mapping and the Unicode character classes are taken from the
//! standard library through a few trusted wrappers; their results are named
//! by uninterpreted spec functions, and everything built on top of them is
//! verified.

use vstd::prelude::*;
use vstd::string::StrSliceExecFns;

verus! {

/// The lowercase form of a single character, as `char::to_lowercase` yields
/// it (its first character where the mapping has several).
pub uninterp spec fn lower_char_of(c: char) -> char;

/// The lowercase form of a character sequence, as `str::to_lowercase` maps
/// the string made of those characters.
pub uninterp spec fn lower_of(s: Seq<char>) -> Seq<char>;

/// Whether a character is alphanumeric in the sense of
/// `char::is_alphanumeric`.
pub uninterp spec fn is_alnum_of(c: char) -> bool;

/// Whether a character is whitespace in the sense of
/// `char::is_whitespace`.
pub uninterp spec fn is_space_of(c: char) -> bool;

/// Relies on `char::to_lowercase`: the mapping depends on the character
/// alone (no locale), and always yields at least one character. The first
/// character of the mapping is the canonical form used for guessed letters.
#[verifier::external_body]
pub(crate) fn lower_char(c: char) -> (r: char)
    ensures
        r == lower_char_of(c),
{
    c.to_lowercase().next().unwrap_or(c)
}

/// Relies on `str::to_lowercase`: the result depends on the characters of
/// the input alone (no locale), and an empty string stays empty.
#[verifier::external_body]
pub(crate) fn lower_str(s: &str) -> (r: String)
    ensures
        r@ == lower_of(s@),
        s@.len() == 0 ==> r@.len() == 0,
{
    s.to_lowercase()
}

/// Relies on `char::is_alphanumeric`: a property of the character alone.
#[verifier::external_body]
pub(crate) fn is_alnum(c: char) -> (r: bool)
    ensures
        r == is_alnum_of(c),
{
    c.is_alphanumeric()
}

/// Relies on `char::is_whitespace`: a property of the character alone.
#[verifier::external_body]
pub(crate) fn is_space(c: char) -> (r: bool)
    ensures
        r == is_space_of(c),
{
    c.is_whitespace()
}

/// What remains of a character sequence once its leading whitespace is
/// removed.
pub open spec fn trim_front(s: Seq<char>) -> Seq<char>
    decreases s.len(),
{
    if s.len() > 0 && is_space_of(s[0]) {
        trim_front(s.drop_first())
    } else {
        s
    }
}

/// What remains of a character sequence once its trailing whitespace is
/// removed.
pub open spec fn trim_back(s: Seq<char>) -> Seq<char>
    decreases s.len(),
{
    if s.len() > 0 && is_space_of(s[s.len() - 1]) {
        trim_back(s.drop_last())
    } else {
        s
    }
}

/// A character sequence with surrounding whitespace removed.
pub open spec fn trimmed(s: Seq<char>) -> Seq<char> {
    trim_back(trim_front(s))
}

proof fn lemma_trim_front_skip(s: Seq<char>, k: int)
    requires
        0 <= k <= s.len(),
        forall|j: int| 0 <= j < k ==> is_space_of(#[trigger] s[j]),
        k == s.len() || !is_space_of(s[k]),
    ensures
        trim_front(s) == s.skip(k),
    decreases k,
{
    if k == 0 {
        assert(s.skip(0) =~= s);
    } else {
        let t = s.drop_first();
        lemma_trim_front_skip(t, k - 1);
        assert(t.skip(k - 1) =~= s.skip(k));
    }
}

proof fn lemma_trim_back_take(s: Seq<char>, k: int)
    requires
        0 <= k <= s.len(),
        forall|j: int| k <= j < s.len() ==> is_space_of(#[trigger] s[j]),
        k == 0 || !is_space_of(s[k - 1]),
    ensures
        trim_back(s) == s.take(k),
    decreases s.len(),
{
    if k == s.len() {
        assert(s.take(k) =~= s);
    } else {
        let t = s.drop_last();
        lemma_trim_back_take(t, k);
        assert(t.take(k) =~= s.take(k));
    }
}

/// Removes the surrounding whitespace of a string, character by character.
pub fn trim_str(s: &str) -> (r: &str)
    ensures
        r@ == trimmed(s@),
{
    let n = s.unicode_len();
    let mut lo: usize = 0;
    while lo < n && is_space(s.get_char(lo))
        invariant
            n == s@.len(),
            lo <= n,
            forall|j: int| 0 <= j < lo ==> is_space_of(#[trigger] s@[j]),
        decreases n - lo,
    {
        lo += 1;
    }
    let mut hi: usize = n;
    while hi > lo && is_space(s.get_char(hi - 1))
        invariant
            n == s@.len(),
            lo <= hi <= n,
            forall|j: int| hi <= j < n ==> is_space_of(#[trigger] s@[j]),
            forall|j: int| 0 <= j < lo ==> is_space_of(#[trigger] s@[j]),
            lo == n || !is_space_of(s@[lo as int]),
        decreases hi,
    {
        hi -= 1;
    }
    proof {
        lemma_trim_front_skip(s@, lo as int);
        let t = s@.skip(lo as int);
        lemma_trim_back_take(t, hi - lo);
        assert(t.take(hi - lo) =~= s@.subrange(lo as int, hi as int));
    }
    s.substring_char(lo, hi)
}

/// Relies on `String::push`: appends the given character to the end of the
/// string.
#[verifier::external_body]
pub(crate) fn push_char(s: &mut String, c: char)
    ensures
        final(s)@ == old(s)@.push(c),
{
    s.push(c)
}

} // verus!

//! Classes of characters, and runs of characters of one class.

use vstd::prelude::*;

verus! {

/// The sets of characters that the rules are made of.
#[derive(Debug, Clone, Copy, PartialEq, Eq, Structural)]
pub enum CharClass {
    /// Blank, tab, carriage return, line feed: the separators.
    Space,
    /// `0` to `9`.
    Digit,
    /// A letter of ASCII, or `_`.
    IdentStart,
    /// A letter of ASCII, a digit, or `_`.
    IdentPart,
    /// Anything but a line feed.
    NotNewline,
    /// Anything but a separator.
    NotSpace,
}

/// Whether `c` is a separator: blank, tab, line feed or carriage return.
pub open spec fn is_space(c: char) -> bool {
    c == ' ' || c == '\t' || c == '\n' || c == '\r'
}

/// Whether `c` is a decimal digit.
pub open spec fn is_digit(c: char) -> bool {
    '0' <= c <= '9'
}

/// Whether an identifier may start with `c`: a letter of ASCII, or `_`.
pub open spec fn is_ident_start(c: char) -> bool {
    ('a' <= c <= 'z') || ('A' <= c <= 'Z') || c == '_'
}

/// Whether `c` can stand in a spelling of the vocabulary: no separator and
/// no quote can.
pub open spec fn is_word_char(c: char) -> bool {
    !is_space(c) && c != '"'
}

/// Whether `c` belongs to `class`.
pub open spec fn in_class(class: CharClass, c: char) -> bool {
    match class {
        CharClass::Space => is_space(c),
        CharClass::Digit => is_digit(c),
        CharClass::IdentStart => is_ident_start(c),
        CharClass::IdentPart => is_ident_start(c) || is_digit(c),
        CharClass::NotNewline => c != '\n',
        CharClass::NotSpace => !is_space(c),
    }
}

/// The length of the longest run of characters of `class` that starts at
/// `at`.
pub open spec fn run_len(class: CharClass, s: Seq<char>, at: int) -> nat
    decreases s.len() - at,
{
    if 0 <= at < s.len() && in_class(class, s[at]) {
        1 + run_len(class, s, at + 1)
    } else {
        0
    }
}

/// A run never leaves the source.
pub proof fn lemma_run_len_bound(class: CharClass, s: Seq<char>, at: int)
    requires
        0 <= at <= s.len(),
    ensures
        at + run_len(class, s, at) <= s.len(),
    decreases s.len() - at,
{
    if at < s.len() && in_class(class, s[at]) {
        lemma_run_len_bound(class, s, at + 1);
    }
}

/// Every character of a run belongs to the class of the run.
pub proof fn lemma_run_members(class: CharClass, s: Seq<char>, at: int, i: int)
    requires
        0 <= at <= i < at + run_len(class, s, at),
    ensures
        i < s.len(),
        in_class(class, s[i]),
    decreases i - at,
{
    if i > at {
        lemma_run_members(class, s, at + 1, i);
    }
}

/// A run is at least as long as a stretch of characters of its class.
pub proof fn lemma_run_at_least(class: CharClass, s: Seq<char>, at: int, n: int)
    requires
        0 <= at,
        0 <= n,
        at + n <= s.len(),
        forall|i: int| at <= i < at + n ==> in_class(class, #[trigger] s[i]),
    ensures
        run_len(class, s, at) >= n,
    decreases n,
{
    if n > 0 {
        assert(in_class(class, s[at]));
        lemma_run_at_least(class, s, at + 1, n - 1);
    }
}

/// A run of a class reaches the end of the source exactly when every
/// character from its start on belongs to the class.
pub proof fn lemma_run_to_end(class: CharClass, s: Seq<char>, at: int)
    requires
        0 <= at <= s.len(),
    ensures
        at + run_len(class, s, at) == s.len() <==> (forall|i: int|
            at <= i < s.len() ==> in_class(class, #[trigger] s[i])),
    decreases s.len() - at,
{
    lemma_run_len_bound(class, s, at);
    if at < s.len() {
        lemma_run_to_end(class, s, at + 1);
        lemma_run_len_bound(class, s, at + 1);
        if in_class(class, s[at]) {
            if at + 1 + run_len(class, s, at + 1) == s.len() {
                assert forall|i: int| at <= i < s.len() implies in_class(class, #[trigger] s[i]) by {
                    if i > at {
                    }
                }
            }
        }
    }
}

/// Whether `c` belongs to `class`.
pub fn char_in_class(class: CharClass, c: char) -> (r: bool)
    ensures
        r == in_class(class, c),
{
    let space = c == ' ' || c == '\t' || c == '\n' || c == '\r';
    let digit = '0' <= c && c <= '9';
    let start = ('a' <= c && c <= 'z') || ('A' <= c && c <= 'Z') || c == '_';
    match class {
        CharClass::Space => space,
        CharClass::Digit => digit,
        CharClass::IdentStart => start,
        CharClass::IdentPart => start || digit,
        CharClass::NotNewline => c != '\n',
        CharClass::NotSpace => !space,
    }
}

/// Measures the run of characters of `class` that starts at `at`.
pub fn scan_run(class: CharClass, source: &Vec<char>, at: usize) -> (n: usize)
    requires
        at <= source@.len(),
    ensures
        n == run_len(class, source@, at as int),
        at + n <= source@.len(),
{
    let mut i: usize = at;
    while i < source.len() && char_in_class(class, source[i])
        invariant
            at <= i <= source@.len(),
            run_len(class, source@, at as int) == (i - at) + run_len(class, source@, i as int),
        decreases source@.len() - i,
    {
        i = i + 1;
    }
    i - at
}

} // verus!

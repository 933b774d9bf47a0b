//! From a rule and the lexeme it accepted to the kind of the token.

use vstd::prelude::*;
use crate::chars::is_digit;
use crate::error::{ErrorView, ParsingError};
use crate::rules::{rule_for, rule_of, starts_with, Rule};
use crate::text::string_of;
use crate::token::{KindView, TokenKind};
use crate::vocabulary::{spelling_at, vocabulary, vocabulary_len, word_at, Vocabulary, Word};

verus! {

/// The value of a decimal digit.
pub open spec fn digit_value(c: char) -> nat {
    (c as nat - '0' as nat) as nat
}

/// The number that the first `k` characters of `text` spell in decimal.
pub open spec fn number_value(text: Seq<char>, k: nat) -> nat
    decreases k,
{
    if k == 0 {
        0
    } else {
        number_value(text, (k - 1) as nat) * 10 + digit_value(text[k - 1])
    }
}

/// Whether `text` is made of decimal digits, at least one.
pub open spec fn is_number(text: Seq<char>) -> bool {
    text.len() > 0 && forall|i: int| 0 <= i < text.len() ==> is_digit(#[trigger] text[i])
}

/// The character that a backslash followed by `c` stands for: `n`, `t`, `r`
/// and `0` give line feed, tab, carriage return and NUL; any other
/// character, the quote and the backslash among them, gives itself.
pub open spec fn escaped(c: char) -> char {
    if c == 'n' {
        '\n'
    } else if c == 't' {
        '\t'
    } else if c == 'r' {
        '\r'
    } else if c == '0' {
        '\0'
    } else {
        c
    }
}

/// The characters `text[from..to]` with every backslash pair replaced by
/// the character it stands for.
pub open spec fn unescape(text: Seq<char>, from: int, to: int) -> Seq<char>
    decreases to - from,
{
    if from >= to {
        Seq::empty()
    } else if text[from] == '\\' && from + 1 < to {
        seq![escaped(text[from + 1])] + unescape(text, from + 2, to)
    } else {
        seq![text[from]] + unescape(text, from + 1, to)
    }
}

/// The contents of a string literal: what stands between its first and its
/// last character, with the escapes resolved.
pub open spec fn literal_contents(text: Seq<char>) -> Seq<char> {
    if text.len() >= 2 {
        unescape(text, 1, text.len() - 1)
    } else {
        Seq::empty()
    }
}

/// The first word from index `k` on that belongs to `rule` and is spelled
/// `text`.
pub open spec fn lookup(rule: Rule, text: Seq<char>, k: int) -> Option<Word>
    decreases vocabulary_len() - k,
{
    if k < 0 || k >= vocabulary_len() {
        None
    } else if rule_of(word_at(k)) == rule && spelling_at(k) == text {
        Some(word_at(k))
    } else {
        lookup(rule, text, k + 1)
    }
}

/// The kind of the token that `rule` makes of `text`, or why it makes none.
/// Text that the rule could not have accepted is of kind `Unknown`.
pub open spec fn classification(rule: Rule, text: Seq<char>) -> Result<KindView, ErrorView> {
    match rule {
        Rule::Whitespace => Ok(KindView::Ignore),
        Rule::Comment => Ok(KindView::Ignore),
        Rule::Identifier => Ok(KindView::Identifier(text)),
        Rule::Number => if !is_number(text) {
            Ok(KindView::Unknown)
        } else if number_value(text, text.len()) <= i64::MAX {
            Ok(KindView::Number(number_value(text, text.len()) as i64))
        } else {
            Err(ErrorView::NumericOverflow(text))
        },
        Rule::StringLiteral => Ok(KindView::String(literal_contents(text))),
        _ => match lookup(rule, text, 0) {
            Some(Word::Keyword(k)) => Ok(KindView::Keyword(k)),
            Some(Word::Operator(o)) => Ok(KindView::Operator(o)),
            None => Ok(KindView::Unknown),
        },
    }
}

/// The view of what [`Vocabulary::classify`] hands back.
pub open spec fn classified_view(r: Result<TokenKind, ParsingError>) -> Result<KindView, ErrorView> {
    match r {
        Ok(kind) => Ok(kind@),
        Err(e) => Err(e@),
    }
}

/// A longer prefix never spells a smaller number.
pub proof fn lemma_number_value_grows(text: Seq<char>, i: nat, j: nat)
    requires
        i <= j,
    ensures
        number_value(text, i) <= number_value(text, j),
    decreases j - i,
{
    if i < j {
        lemma_number_value_grows(text, i, (j - 1) as nat);
    }
}

/// A word that is in the vocabulary under a rule is found under that rule.
pub proof fn lemma_lookup_finds(rule: Rule, text: Seq<char>, from: int, j: int)
    requires
        0 <= from <= j < vocabulary_len(),
        rule_of(word_at(j)) == rule,
        spelling_at(j) == text,
    ensures
        lookup(rule, text, from) is Some,
    decreases j - from,
{
    if from < j {
        lemma_lookup_finds(rule, text, from + 1, j);
    }
}

/// A word that is found under a rule belongs to that rule and is spelled
/// as the text that was looked up.
pub proof fn lemma_lookup_result(rule: Rule, text: Seq<char>, from: int)
    requires
        0 <= from,
    ensures
        lookup(rule, text, from) matches Some(word) ==> exists|j: int|
            from <= j < vocabulary_len() && word_at(j) == word && rule_of(word) == rule
                && #[trigger] spelling_at(j) == text,
    decreases vocabulary_len() - from,
{
    if from < vocabulary_len() {
        if rule_of(word_at(from)) == rule && spelling_at(from) == text {
        } else {
            lemma_lookup_result(rule, text, from + 1);
        }
    }
}

/// Tells whether two texts are the same.
pub fn same_text(a: &Vec<char>, b: &Vec<char>) -> (r: bool)
    ensures
        r == (a@ == b@),
{
    if a.len() != b.len() {
        return false;
    }
    let r = starts_with(a, 0, b);
    proof {
        assert(a@.subrange(0, a@.len() as int) =~= a@);
    }
    r
}

/// Reads a run of decimal digits as a number. `Ok(None)` when `text` is no
/// such run, `Err(())` when its value does not fit.
pub fn parse_number(text: &Vec<char>) -> (r: Result<Option<i64>, ()>)
    ensures
        match r {
            Ok(Some(v)) => is_number(text@) && v == number_value(text@, text@.len()),
            Ok(None) => !is_number(text@),
            Err(_) => is_number(text@) && number_value(text@, text@.len()) > i64::MAX,
        },
{
    if text.len() == 0 {
        return Ok(None);
    }
    let mut value: i64 = 0;
    let mut overflow = false;
    let mut i: usize = 0;
    while i < text.len()
        invariant
            i <= text@.len(),
            forall|k: int| 0 <= k < i ==> is_digit(#[trigger] text@[k]),
            0 <= value,
            !overflow ==> value == number_value(text@, i as nat),
            overflow ==> number_value(text@, i as nat) > i64::MAX,
        decreases text@.len() - i,
    {
        let c = text[i];
        if !('0' <= c && c <= '9') {
            return Ok(None);
        }
        let digit: i64 = (c as u32 - '0' as u32) as i64;
        if !overflow {
            if value > (i64::MAX - digit) / 10 {
                overflow = true;
            } else {
                value = value * 10 + digit;
            }
        }
        i = i + 1;
        proof {
            if overflow {
                lemma_number_value_grows(text@, (i - 1) as nat, i as nat);
            }
        }
    }
    if overflow {
        Err(())
    } else {
        Ok(Some(value))
    }
}

/// Resolves the escapes of `text[from..to]`.
pub fn resolve_escapes(text: &Vec<char>, from: usize, to: usize) -> (out: String)
    requires
        from <= to <= text@.len(),
    ensures
        out@ == unescape(text@, from as int, to as int),
{
    let mut out = String::new();
    let mut i: usize = from;
    while i < to
        invariant
            from <= i <= to <= text@.len(),
            out@ + unescape(text@, i as int, to as int) == unescape(text@, from as int, to as int),
        decreases to - i,
    {
        let ghost before = out@;
        let c = text[i];
        if c == '\\' && to - i > 1 {
            let e = text[i + 1];
            let r = if e == 'n' {
                '\n'
            } else if e == 't' {
                '\t'
            } else if e == 'r' {
                '\r'
            } else if e == '0' {
                '\0'
            } else {
                e
            };
            out.push(r);
            assert(before.push(r) + unescape(text@, i + 2, to as int) =~= before + (seq![r]
                + unescape(text@, i + 2, to as int)));
            i = i + 2;
        } else {
            out.push(c);
            assert(before.push(c) + unescape(text@, i + 1, to as int) =~= before + (seq![c]
                + unescape(text@, i + 1, to as int)));
            i = i + 1;
        }
    }
    assert(out@ + Seq::<char>::empty() =~= out@);
    out
}

impl Vocabulary {
    /// Finds the word of `rule` that is spelled `text`.
    pub fn find_word(&self, rule: Rule, text: &Vec<char>) -> (found: Option<Word>)
        requires
            self.wf(),
        ensures
            found == lookup(rule, text@, 0),
    {
        let mut k: usize = 0;
        while k < self.entries.len()
            invariant
                self.wf(),
                k <= vocabulary_len(),
                lookup(rule, text@, 0) == lookup(rule, text@, k as int),
            decreases vocabulary_len() - k,
        {
            let entry = &self.entries[k];
            assert(entry@ == vocabulary()[k as int]);
            if rule_for(entry.word) == rule && same_text(&entry.spelling, text) {
                return Some(entry.word);
            }
            k = k + 1;
        }
        None
    }

    /// Makes the kind of the token that `rule` makes of the lexeme `text`.
    pub fn classify(&self, rule: Rule, text: &Vec<char>) -> (r: Result<TokenKind, ParsingError>)
        requires
            self.wf(),
        ensures
            classified_view(r) == classification(rule, text@),
    {
        assert(text@.subrange(0, text@.len() as int) =~= text@);
        match rule {
            Rule::Whitespace => Ok(TokenKind::Ignore),
            Rule::Comment => Ok(TokenKind::Ignore),
            Rule::Identifier => Ok(TokenKind::Identifier(string_of(text, 0, text.len()))),
            Rule::Number => match parse_number(text) {
                Ok(Some(v)) => Ok(TokenKind::Number(v)),
                Ok(None) => Ok(TokenKind::Unknown),
                Err(_) => Err(ParsingError::NumericOverflow(string_of(text, 0, text.len()))),
            },
            Rule::StringLiteral => {
                if text.len() >= 2 {
                    Ok(TokenKind::String(resolve_escapes(text, 1, text.len() - 1)))
                } else {
                    Ok(TokenKind::String(String::new()))
                }
            },
            _ => match self.find_word(rule, text) {
                Some(Word::Keyword(k)) => Ok(TokenKind::Keyword(k)),
                Some(Word::Operator(o)) => Ok(TokenKind::Operator(o)),
                None => Ok(TokenKind::Unknown),
            },
        }
    }
}

} // verus!

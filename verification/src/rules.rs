//! The lexical rules: what each rule accepts at a position, and which rule
//! wins where several accept.

use vstd::prelude::*;
use crate::chars::{
    char_in_class, in_class, is_ident_start, is_space, is_word_char, lemma_run_len_bound, run_len,
    scan_run, CharClass,
};
use crate::token::Operators;
use crate::vocabulary::{
    lemma_operator_spelling, lemma_spelling_chars, lemma_spelling_not_empty, spelling_at,
    vocabulary, vocabulary_len, word_at, Vocabulary, Word,
};

verus! {

/// The rules, listed in order of priority: an earlier rule wins a tie.
#[derive(Debug, Clone, Copy, PartialEq, Eq, Structural)]
pub enum Rule {
    /// A run of blanks, tabs, carriage returns and line feeds.
    Whitespace,
    /// `//` and everything up to the end of the line.
    Comment,
    /// A spelling of a keyword.
    Keyword,
    /// A letter or `_`, then letters, digits and `_`.
    Identifier,
    /// A run of decimal digits.
    Number,
    /// `"`, then characters or backslash pairs, then `"`.
    StringLiteral,
    /// `=`, `==`, `!=`, `+`, `-`, `*`, `/`, `**`, `->`.
    Operator,
    /// `(`, `)`, `{`, `}`, `[`, `]`, `;`.
    Punctuation,
}

/// The number of rules.
pub open spec fn rule_count() -> nat {
    8
}

/// The rule of priority `index`; 0 is the highest.
pub open spec fn rule_at(index: int) -> Rule {
    if index == 0 {
        Rule::Whitespace
    } else if index == 1 {
        Rule::Comment
    } else if index == 2 {
        Rule::Keyword
    } else if index == 3 {
        Rule::Identifier
    } else if index == 4 {
        Rule::Number
    } else if index == 5 {
        Rule::StringLiteral
    } else if index == 6 {
        Rule::Operator
    } else {
        Rule::Punctuation
    }
}

/// The priority of a rule: its place in the list.
pub open spec fn priority(rule: Rule) -> int {
    match rule {
        Rule::Whitespace => 0,
        Rule::Comment => 1,
        Rule::Keyword => 2,
        Rule::Identifier => 3,
        Rule::Number => 4,
        Rule::StringLiteral => 5,
        Rule::Operator => 6,
        Rule::Punctuation => 7,
    }
}

/// The rule under which a word of the vocabulary is matched.
pub open spec fn rule_of(word: Word) -> Rule {
    match word {
        Word::Keyword(_) => Rule::Keyword,
        Word::Operator(o) => match o {
            Operators::OpenParen
            | Operators::CloseParen
            | Operators::OpenBracket
            | Operators::CloseBracket
            | Operators::OpenBrace
            | Operators::CloseBrace
            | Operators::EndLine => Rule::Punctuation,
            _ => Rule::Operator,
        },
    }
}

/// Whether `word` stands in `s` at `at`.
pub open spec fn starts_at(s: Seq<char>, at: int, word: Seq<char>) -> bool {
    0 <= at && at + word.len() <= s.len() && s.subrange(at, at + word.len()) == word
}

/// The length of the longest spelling among the first `k` entries of the
/// vocabulary that belongs to `rule` and stands in `s` at `at`; 0 if none
/// does.
pub open spec fn word_len(rule: Rule, s: Seq<char>, at: int, k: int) -> nat
    decreases k,
{
    if k <= 0 {
        0
    } else {
        let rest = word_len(rule, s, at, k - 1);
        let entry = vocabulary()[k - 1];
        if rule_of(entry.word) == rule && starts_at(s, at, entry.spelling)
            && entry.spelling.len() > rest {
            entry.spelling.len()
        } else {
            rest
        }
    }
}

/// Where the string literal whose body is read from `from` ends: the offset
/// just past its closing quote. A backslash takes the next character with
/// it, whatever it is. `None` when the source ends first.
pub open spec fn string_close(s: Seq<char>, from: int) -> Option<int>
    decreases s.len() - from,
{
    if from < 0 || from >= s.len() {
        None
    } else if s[from] == '"' {
        Some(from + 1)
    } else if s[from] == '\\' {
        if from + 1 < s.len() {
            string_close(s, from + 2)
        } else {
            None
        }
    } else {
        string_close(s, from + 1)
    }
}

/// The length of the lexeme that `rule` accepts in `s` at `at`; 0 when it
/// accepts none. A rule accepts at most one lexeme at a position, its
/// longest.
pub open spec fn rule_len(rule: Rule, s: Seq<char>, at: int) -> nat {
    match rule {
        Rule::Whitespace => run_len(CharClass::Space, s, at),
        Rule::Comment => if starts_at(s, at, seq!['/', '/']) {
            2 + run_len(CharClass::NotNewline, s, at + 2)
        } else {
            0
        },
        Rule::Keyword => word_len(rule, s, at, vocabulary_len() as int),
        Rule::Identifier => if 0 <= at < s.len() && is_ident_start(s[at]) {
            1 + run_len(CharClass::IdentPart, s, at + 1)
        } else {
            0
        },
        Rule::Number => run_len(CharClass::Digit, s, at),
        Rule::StringLiteral => if 0 <= at < s.len() && s[at] == '"' {
            match string_close(s, at + 1) {
                Some(end) => (end - at) as nat,
                None => 0,
            }
        } else {
            0
        },
        Rule::Operator => word_len(rule, s, at, vocabulary_len() as int),
        Rule::Punctuation => word_len(rule, s, at, vocabulary_len() as int),
    }
}

/// The winner among the first `k` rules: the one with the longest lexeme,
/// and of several with the longest, the one listed first.
pub open spec fn select_among(s: Seq<char>, at: int, k: int) -> Option<Rule>
    decreases k,
{
    if k <= 0 {
        None
    } else {
        let rule = rule_at(k - 1);
        match select_among(s, at, k - 1) {
            Some(best) => if rule_len(rule, s, at) > rule_len(best, s, at) {
                Some(rule)
            } else {
                Some(best)
            },
            None => if rule_len(rule, s, at) > 0 {
                Some(rule)
            } else {
                None
            },
        }
    }
}

/// The rule that wins in `s` at `at`, if any rule accepts a lexeme there.
pub open spec fn select(s: Seq<char>, at: int) -> Option<Rule> {
    select_among(s, at, rule_count() as int)
}

/// A word that was matched lies inside the source.
pub proof fn lemma_word_len_bound(rule: Rule, s: Seq<char>, at: int, k: int)
    requires
        0 <= at <= s.len(),
    ensures
        at + word_len(rule, s, at, k) <= s.len(),
    decreases k,
{
    if k > 0 {
        lemma_word_len_bound(rule, s, at, k - 1);
    }
}

/// A string literal closes inside the source, after where its body began.
pub proof fn lemma_string_close_bound(s: Seq<char>, from: int)
    requires
        0 <= from,
    ensures
        string_close(s, from) matches Some(end) ==> from < end <= s.len(),
    decreases s.len() - from,
{
    if from < s.len() {
        if s[from] == '"' {
        } else if s[from] == '\\' {
            if from + 1 < s.len() {
                lemma_string_close_bound(s, from + 2);
            }
        } else {
            lemma_string_close_bound(s, from + 1);
        }
    }
}

/// No rule accepts a lexeme that leaves the source.
pub proof fn lemma_rule_len_bound(rule: Rule, s: Seq<char>, at: int)
    requires
        0 <= at <= s.len(),
    ensures
        at + rule_len(rule, s, at) <= s.len(),
{
    lemma_run_len_bound(CharClass::Space, s, at);
    lemma_run_len_bound(CharClass::Digit, s, at);
    lemma_word_len_bound(rule, s, at, vocabulary_len() as int);
    if at + 2 <= s.len() {
        lemma_run_len_bound(CharClass::NotNewline, s, at + 2);
    }
    if at < s.len() {
        lemma_run_len_bound(CharClass::IdentPart, s, at + 1);
        lemma_string_close_bound(s, at + 1);
    }
}

/// The scanning policy: the selected rule accepts a lexeme, no rule accepts
/// a longer one, and no rule listed before it accepts one as long. Where no
/// rule is selected, none accepts anything.
pub proof fn lemma_select_longest_then_first(s: Seq<char>, at: int, other: Rule)
    ensures
        select(s, at) matches Some(rule) ==> {
            &&& rule_len(rule, s, at) > 0
            &&& rule_len(other, s, at) <= rule_len(rule, s, at)
            &&& rule_len(other, s, at) == rule_len(rule, s, at) ==> priority(rule) <= priority(
                other,
            )
        },
        select(s, at) is None ==> rule_len(other, s, at) == 0,
{
    lemma_select_among(s, at, rule_count() as int, other);
    assert(rule_at(priority(other)) == other);
}

proof fn lemma_select_among(s: Seq<char>, at: int, k: int, other: Rule)
    requires
        0 <= k <= rule_count(),
    ensures
        select_among(s, at, k) matches Some(rule) ==> {
            &&& rule_len(rule, s, at) > 0
            &&& priority(rule) < k
            &&& priority(other) < k ==> rule_len(other, s, at) <= rule_len(rule, s, at)
            &&& priority(other) < k && rule_len(other, s, at) == rule_len(rule, s, at)
                ==> priority(rule) <= priority(other)
        },
        select_among(s, at, k) is None && priority(other) < k ==> rule_len(other, s, at) == 0,
    decreases k,
{
    if k > 0 {
        lemma_select_among(s, at, k - 1, other);
        assert(rule_at(priority(other)) == other);
        assert(priority(rule_at(k - 1)) == k - 1);
    }
}

/// The word that a rule matches is at least as long as any spelling of
/// that rule that stands there.
pub proof fn lemma_word_len_longest(rule: Rule, s: Seq<char>, at: int, k: int, j: int)
    requires
        0 <= j < k <= vocabulary_len(),
        rule_of(word_at(j)) == rule,
        starts_at(s, at, spelling_at(j)),
    ensures
        word_len(rule, s, at, k) >= spelling_at(j).len(),
    decreases k,
{
    if j < k - 1 {
        lemma_word_len_longest(rule, s, at, k - 1, j);
    }
}

/// No word of the vocabulary stands where a separator or a quote stands.
pub proof fn lemma_no_word_at(rule: Rule, s: Seq<char>, at: int, k: int)
    requires
        0 <= at < s.len(),
        !is_word_char(s[at]),
        0 <= k <= vocabulary_len(),
    ensures
        word_len(rule, s, at, k) == 0,
    decreases k,
{
    if k > 0 {
        lemma_no_word_at(rule, s, at, k - 1);
        let e = spelling_at(k - 1);
        assert(vocabulary()[k - 1].spelling == e);
        if starts_at(s, at, e) {
            lemma_spelling_not_empty(k - 1);
            lemma_spelling_chars(k - 1, 0);
            assert(s.subrange(at, at + e.len())[0] == s[at]);
        }
    }
}

/// A word that was matched is a spelling of the vocabulary that belongs to
/// the rule and stands in the source.
pub proof fn lemma_word_len_found(rule: Rule, s: Seq<char>, at: int, k: int)
    requires
        0 <= k <= vocabulary_len(),
        word_len(rule, s, at, k) > 0,
    ensures
        exists|j: int|
            0 <= j < k && rule_of(word_at(j)) == rule && #[trigger] spelling_at(j) == s.subrange(
                at,
                at + word_len(rule, s, at, k),
            ),
    decreases k,
{
    let rest = word_len(rule, s, at, k - 1);
    let j = k - 1;
    if rule_of(word_at(j)) == rule && starts_at(s, at, spelling_at(j)) && spelling_at(j).len()
        > rest {
        assert(spelling_at(j) == s.subrange(at, at + word_len(rule, s, at, k)));
    } else {
        lemma_word_len_found(rule, s, at, k - 1);
    }
}

/// No operator and no punctuation mark stands where an identifier starts.
pub proof fn lemma_no_operator_at(rule: Rule, s: Seq<char>, at: int, k: int)
    requires
        0 <= at < s.len(),
        in_class(CharClass::IdentPart, s[at]),
        rule == Rule::Operator || rule == Rule::Punctuation,
        0 <= k <= vocabulary_len(),
    ensures
        word_len(rule, s, at, k) == 0,
    decreases k,
{
    if k > 0 {
        lemma_no_operator_at(rule, s, at, k - 1);
        let e = spelling_at(k - 1);
        assert(vocabulary()[k - 1].spelling == e);
        assert(vocabulary()[k - 1].word == word_at(k - 1));
        if rule_of(word_at(k - 1)) == rule && starts_at(s, at, e) {
            lemma_operator_spelling(k - 1);
            assert(s.subrange(at, at + e.len())[0] == s[at]);
        }
    }
}

/// A quote opens a string literal and nothing else: no other rule accepts
/// a lexeme that starts with one.
pub proof fn lemma_quote_only_opens_strings(rule: Rule, s: Seq<char>, at: int)
    requires
        0 <= at < s.len(),
        s[at] == '"',
        rule != Rule::StringLiteral,
    ensures
        rule_len(rule, s, at) == 0,
{
    lemma_no_word_at(rule, s, at, vocabulary_len() as int);
    if starts_at(s, at, seq!['/', '/']) {
        assert(s.subrange(at, at + 2)[0] == s[at]);
    }
}

/// A separator starts whitespace and nothing else: no other rule accepts a
/// lexeme that starts with one.
pub proof fn lemma_space_only_starts_whitespace(rule: Rule, s: Seq<char>, at: int)
    requires
        0 <= at < s.len(),
        is_space(s[at]),
        rule != Rule::Whitespace,
    ensures
        rule_len(rule, s, at) == 0,
{
    lemma_no_word_at(rule, s, at, vocabulary_len() as int);
    if starts_at(s, at, seq!['/', '/']) {
        assert(s.subrange(at, at + 2)[0] == s[at]);
    }
}

/// Tells whether `word` stands in `source` at `at`.
pub fn starts_with(source: &Vec<char>, at: usize, word: &Vec<char>) -> (r: bool)
    requires
        at <= source@.len(),
    ensures
        r == starts_at(source@, at as int, word@),
{
    if word.len() > source.len() - at {
        return false;
    }
    let mut i: usize = 0;
    while i < word.len()
        invariant
            at + word@.len() <= source@.len() <= usize::MAX,
            i <= word@.len(),
            source@.subrange(at as int, at + i) == word@.subrange(0, i as int),
        decreases word@.len() - i,
    {
        if source[at + i] != word[i] {
            proof {
                let full = source@.subrange(at as int, at + word@.len());
                assert(full[i as int] == source@[at + i]);
            }
            return false;
        }
        i = i + 1;
        proof {
            assert(source@.subrange(at as int, at + i) =~= source@.subrange(
                at as int,
                at + i - 1,
            ).push(source@[at + i - 1]));
            assert(word@.subrange(0, i as int) =~= word@.subrange(0, i - 1).push(word@[i - 1]));
        }
    }
    proof {
        assert(word@.subrange(0, word@.len() as int) =~= word@);
    }
    true
}

/// Finds where the string literal whose body is read from `from` ends.
pub fn find_string_close(source: &Vec<char>, from: usize) -> (end: Option<usize>)
    requires
        from <= source@.len(),
    ensures
        match end {
            Some(e) => string_close(source@, from as int) == Some(e as int) && from < e
                <= source@.len(),
            None => string_close(source@, from as int) is None,
        },
{
    let mut i: usize = from;
    while i < source.len()
        invariant
            from <= i <= source@.len(),
            string_close(source@, from as int) == string_close(source@, i as int),
        decreases source@.len() - i,
    {
        let c = source[i];
        if c == '"' {
            return Some(i + 1);
        } else if c == '\\' {
            if source.len() - i < 2 {
                return None;
            }
            i = i + 2;
        } else {
            i = i + 1;
        }
    }
    None
}

impl Vocabulary {
    /// Measures the longest spelling of `rule` that stands in `source` at
    /// `at`.
    pub fn match_word(&self, rule: Rule, source: &Vec<char>, at: usize) -> (n: usize)
        requires
            self.wf(),
            at <= source@.len(),
        ensures
            n == word_len(rule, source@, at as int, vocabulary_len() as int),
            at + n <= source@.len(),
    {
        let mut best: usize = 0;
        let mut k: usize = 0;
        while k < self.entries.len()
            invariant
                self.wf(),
                at <= source@.len(),
                k <= vocabulary_len(),
                best == word_len(rule, source@, at as int, k as int),
            decreases vocabulary_len() - k,
        {
            let entry = &self.entries[k];
            assert(entry@ == vocabulary()[k as int]);
            if rule_for(entry.word) == rule && entry.spelling.len() > best && starts_with(
                source,
                at,
                &entry.spelling,
            ) {
                best = entry.spelling.len();
            }
            k = k + 1;
        }
        proof {
            lemma_word_len_bound(rule, source@, at as int, vocabulary_len() as int);
        }
        best
    }

    /// Measures the lexeme that `rule` accepts in `source` at `at`; 0 when
    /// it accepts none.
    pub fn match_length(&self, rule: Rule, source: &Vec<char>, at: usize) -> (n: usize)
        requires
            self.wf(),
            at <= source@.len(),
        ensures
            n == rule_len(rule, source@, at as int),
            at + n <= source@.len(),
    {
        proof {
            lemma_rule_len_bound(rule, source@, at as int);
        }
        match rule {
            Rule::Whitespace => scan_run(CharClass::Space, source, at),
            Rule::Comment => {
                if source.len() - at >= 2 && source[at] == '/' && source[at + 1] == '/' {
                    assert(source@.subrange(at as int, at + 2) =~= seq!['/', '/']);
                    2 + scan_run(CharClass::NotNewline, source, at + 2)
                } else {
                    proof {
                        if at + 2 <= source@.len() {
                            let two = source@.subrange(at as int, at + 2);
                            assert(two[0] == source@[at as int]);
                            assert(two[1] == source@[at + 1]);
                        }
                    }
                    0
                }
            },
            Rule::Keyword => self.match_word(rule, source, at),
            Rule::Identifier => {
                if at < source.len() && char_in_class(CharClass::IdentStart, source[at]) {
                    1 + scan_run(CharClass::IdentPart, source, at + 1)
                } else {
                    0
                }
            },
            Rule::Number => scan_run(CharClass::Digit, source, at),
            Rule::StringLiteral => {
                if at < source.len() && source[at] == '"' {
                    match find_string_close(source, at + 1) {
                        Some(end) => end - at,
                        None => 0,
                    }
                } else {
                    0
                }
            },
            Rule::Operator => self.match_word(rule, source, at),
            Rule::Punctuation => self.match_word(rule, source, at),
        }
    }

    /// Picks the rule that wins in `source` at `at`, with the length of its
    /// lexeme: the longest lexeme wins, and among equals the rule listed
    /// first.
    pub fn select_rule(&self, source: &Vec<char>, at: usize) -> (r: Option<(Rule, usize)>)
        requires
            self.wf(),
            at <= source@.len(),
        ensures
            match r {
                Some((rule, n)) => select(source@, at as int) == Some(rule) && n == rule_len(
                    rule,
                    source@,
                    at as int,
                ) && n > 0 && at + n <= source@.len(),
                None => select(source@, at as int) is None,
            },
    {
        let order: [Rule; 8] = [
            Rule::Whitespace,
            Rule::Comment,
            Rule::Keyword,
            Rule::Identifier,
            Rule::Number,
            Rule::StringLiteral,
            Rule::Operator,
            Rule::Punctuation,
        ];
        let mut best: Option<(Rule, usize)> = None;
        let mut k: usize = 0;
        while k < 8
            invariant
                self.wf(),
                at <= source@.len(),
                k <= 8,
                forall|i: int| 0 <= i < 8 ==> order@[i] == rule_at(i),
                match best {
                    Some((rule, n)) => select_among(source@, at as int, k as int) == Some(rule)
                        && n == rule_len(rule, source@, at as int) && n > 0 && at + n
                        <= source@.len(),
                    None => select_among(source@, at as int, k as int) is None,
                },
            decreases 8 - k,
        {
            let rule = order[k];
            let n = self.match_length(rule, source, at);
            match best {
                Some((_, m)) => {
                    if n > m {
                        best = Some((rule, n));
                    }
                },
                None => {
                    if n > 0 {
                        best = Some((rule, n));
                    }
                },
            }
            k = k + 1;
        }
        best
    }
}

/// The rule under which a word of the vocabulary is matched.
pub fn rule_for(word: Word) -> (rule: Rule)
    ensures
        rule == rule_of(word),
{
    match word {
        Word::Keyword(_) => Rule::Keyword,
        Word::Operator(o) => match o {
            Operators::OpenParen
            | Operators::CloseParen
            | Operators::OpenBracket
            | Operators::CloseBracket
            | Operators::OpenBrace
            | Operators::CloseBrace
            | Operators::EndLine => Rule::Punctuation,
            _ => Rule::Operator,
        },
    }
}

} // verus!

//! The scanner: from a place in the source to the lexeme that starts there,
//! and from the whole source to its lexemes.

use vstd::prelude::*;
use crate::chars::{is_space, lemma_run_len_bound, run_len, scan_run, CharClass};
use crate::classify::classification;
use crate::diagnose::{diagnosis, diagnosis_view};
use crate::error::{diagnostic_views, Diagnostic, DiagnosticView, ErrorView, ParsingError};
use crate::laws::{
    lemma_clean_scan_is_meaningful, lemma_texts_cover_source, lemma_tokens_are_placed,
    lemma_tokens_in_source_order,
};
use crate::position::{place_at, Position};
use crate::rules::{lemma_rule_len_bound, lemma_select_longest_then_first, rule_len, select, Rule};
use crate::text::{chars_between, string_of};
use crate::token::{
    all_meaningful, all_placed, concat_texts, in_source_order, token_views, KindView, Token,
    TokenKind, TokenView,
};
use crate::vocabulary::Vocabulary;

verus! {

/// What the scanner finds at a place: how many characters the lexeme takes,
/// its kind, and what is wrong with it if anything is. A lexeme with a
/// problem is of kind `Unknown`.
pub struct StepView {
    pub len: nat,
    pub kind: KindView,
    pub problem: Option<ErrorView>,
}

/// The lexeme that starts in `s` at `at`.
///
/// Where a rule is selected, its lexeme is classified. An identifier at
/// which the keyword rule accepts nothing is first compared with the
/// vocabulary: if a word is close enough it is reported as a mistake.
/// Where no rule is selected, a quote opens a string literal that never
/// closes, which takes the rest of the source; anything else takes the
/// characters up to the next separator, and is reported as a mistake if a
/// word is close enough and as an unknown token if none is.
pub open spec fn step(s: Seq<char>, at: int) -> StepView {
    match select(s, at) {
        Some(rule) => {
            let len = rule_len(rule, s, at);
            let text = s.subrange(at, at + len);
            if rule == Rule::Identifier && rule_len(Rule::Keyword, s, at) == 0 {
                match diagnosis(text) {
                    Some(e) => StepView { len, kind: KindView::Unknown, problem: Some(e) },
                    None => StepView { len, kind: KindView::Identifier(text), problem: None },
                }
            } else {
                match classification(rule, text) {
                    Ok(kind) => StepView { len, kind, problem: None },
                    Err(e) => StepView { len, kind: KindView::Unknown, problem: Some(e) },
                }
            }
        },
        None => if s[at] == '"' {
            StepView {
                len: (s.len() - at) as nat,
                kind: KindView::Unknown,
                problem: Some(ErrorView::UnterminatedString(s.subrange(at, s.len() as int))),
            }
        } else {
            let len = run_len(CharClass::NotSpace, s, at);
            let text = s.subrange(at, at + len);
            match diagnosis(text) {
                Some(e) => StepView { len, kind: KindView::Unknown, problem: Some(e) },
                None => StepView {
                    len,
                    kind: KindView::Unknown,
                    problem: Some(ErrorView::UnknownToken(text)),
                },
            }
        },
    }
}

/// Where the lexeme after the one at `at` starts.
pub open spec fn next_offset(s: Seq<char>, at: int) -> int {
    at + step(s, at).len
}

/// The token that starts in `s` at `at`.
pub open spec fn token_at(s: Seq<char>, at: int) -> TokenView {
    TokenView {
        kind: step(s, at).kind,
        text: s.subrange(at, at + step(s, at).len),
        position: place_at(s, at),
    }
}

/// The tokens of `s` from `at` on, in source order; without those of kind
/// `Ignore` unless `keep_ignored`. (Every lexeme inside the source ends
/// after its start and inside the source, by [`lemma_step_advances`]: the
/// second test is there for the recursion to be well-founded.)
pub open spec fn tokens_from(s: Seq<char>, at: int, keep_ignored: bool) -> Seq<TokenView>
    decreases s.len() - at,
{
    if !(0 <= at < s.len()) || !(at < next_offset(s, at) <= s.len()) {
        Seq::empty()
    } else {
        let rest = tokens_from(s, next_offset(s, at), keep_ignored);
        if !keep_ignored && step(s, at).kind is Ignore {
            rest
        } else {
            seq![token_at(s, at)] + rest
        }
    }
}

/// The problems of `s` from `at` on, in source order, each with the place of
/// its lexeme.
pub open spec fn problems_from(s: Seq<char>, at: int) -> Seq<DiagnosticView>
    decreases s.len() - at,
{
    if !(0 <= at < s.len()) || !(at < next_offset(s, at) <= s.len()) {
        Seq::empty()
    } else {
        let rest = problems_from(s, next_offset(s, at));
        match step(s, at).problem {
            Some(error) => seq![DiagnosticView { error, position: place_at(s, at) }] + rest,
            None => rest,
        }
    }
}

/// Every lexeme takes at least one character and stays inside the source.
pub proof fn lemma_step_advances(s: Seq<char>, at: int)
    requires
        0 <= at < s.len(),
    ensures
        1 <= step(s, at).len,
        at + step(s, at).len <= s.len(),
{
    match select(s, at) {
        Some(rule) => {
            lemma_select_longest_then_first(s, at, rule);
            lemma_rule_len_bound(rule, s, at);
        },
        None => {
            lemma_select_longest_then_first(s, at, Rule::Whitespace);
            lemma_run_len_bound(CharClass::NotSpace, s, at);
            assert(!is_space(s[at]));
        },
    }
}

/// One lexeme as the scanner hands it out.
#[derive(Debug, Clone, PartialEq, Eq)]
pub struct Lexeme {
    /// The token; of kind `Unknown` where there is a problem.
    pub token: Token,
    /// What is wrong with the lexeme, if anything.
    pub problem: Option<ParsingError>,
    /// The offset of the character after the lexeme.
    pub next: usize,
}

/// What a scan of a whole source gives.
#[derive(Debug, Clone, PartialEq, Eq)]
pub struct Scan {
    pub tokens: Vec<Token>,
    pub diagnostics: Vec<Diagnostic>,
}

/// What a strict scan of `s` gives: the first problem if there is one, else
/// the tokens.
pub open spec fn strict_scan(s: Seq<char>, keep_ignored: bool) -> Result<
    Seq<TokenView>,
    DiagnosticView,
> {
    if problems_from(s, 0).len() > 0 {
        Err(problems_from(s, 0)[0])
    } else {
        Ok(tokens_from(s, 0, keep_ignored))
    }
}

/// The view of what [`Vocabulary::scan_strict`] hands back.
pub open spec fn strict_view(r: Result<Vec<Token>, Diagnostic>) -> Result<
    Seq<TokenView>,
    DiagnosticView,
> {
    match r {
        Ok(tokens) => Ok(token_views(tokens@)),
        Err(d) => Err(d@),
    }
}

impl Vocabulary {
    /// Scans the lexeme that starts in `source` at `at`, where `position` is
    /// the place of that offset.
    pub fn next_lexeme(&self, source: &Vec<char>, at: usize, position: Position) -> (lexeme:
        Lexeme)
        requires
            self.wf(),
            at < source@.len(),
            position@ == place_at(source@, at as int),
        ensures
            lexeme.token@ == token_at(source@, at as int),
            diagnosis_view(lexeme.problem) == step(source@, at as int).problem,
            lexeme.next == at + step(source@, at as int).len,
            at < lexeme.next <= source@.len(),
    {
        proof {
            lemma_step_advances(source@, at as int);
        }
        let total = source.len();
        let (len, outcome) = match self.select_rule(source, at) {
            Some((rule, n)) => {
                let text = chars_between(source, at, at + n);
                let keyword_like = rule == Rule::Identifier && self.match_length(
                    Rule::Keyword,
                    source,
                    at,
                ) == 0;
                if keyword_like {
                    match self.diagnose(&text) {
                        Some(e) => (n, Err(e)),
                        None => {
                            let name = string_of(&text, 0, n);
                            assert(name@ =~= text@);
                            (n, Ok(TokenKind::Identifier(name)))
                        },
                    }
                } else {
                    (n, self.classify(rule, &text))
                }
            },
            None => {
                if source[at] == '"' {
                    let n = total - at;
                    (n, Err(ParsingError::UnterminatedString(string_of(source, at, at + n))))
                } else {
                    let n = scan_run(CharClass::NotSpace, source, at);
                    let text = chars_between(source, at, at + n);
                    match self.diagnose(&text) {
                        Some(e) => (n, Err(e)),
                        None => {
                            let unknown = string_of(&text, 0, n);
                            assert(unknown@ =~= text@);
                            (n, Err(ParsingError::UnknownToken(unknown)))
                        },
                    }
                }
            },
        };
        let text = string_of(source, at, at + len);
        match outcome {
            Ok(kind) => Lexeme { token: Token { kind, text, position }, problem: None, next: at + len },
            Err(e) => Lexeme {
                token: Token { kind: TokenKind::Unknown, text, position },
                problem: Some(e),
                next: at + len,
            },
        }
    }

    /// Scans the whole of `source` and collects every token and every
    /// problem. It goes on after a problem: the lexeme in question is handed
    /// out as a token of kind `Unknown`.
    pub fn scan_lenient(&self, source: &Vec<char>, keep_ignored: bool) -> (scan: Scan)
        requires
            self.wf(),
        ensures
            token_views(scan.tokens@) == tokens_from(source@, 0, keep_ignored),
            diagnostic_views(scan.diagnostics@) == problems_from(source@, 0),
            in_source_order(token_views(scan.tokens@)),
            all_placed(token_views(scan.tokens@)),
            keep_ignored ==> concat_texts(token_views(scan.tokens@)) == source@,
    {
        proof {
            lemma_tokens_are_placed(source@, keep_ignored);
            lemma_tokens_in_source_order(source@, keep_ignored);
            lemma_texts_cover_source(source@);
        }
        let mut tokens: Vec<Token> = Vec::new();
        let mut diagnostics: Vec<Diagnostic> = Vec::new();
        let mut at: usize = 0;
        let mut position = Position::start();
        assert(token_views(tokens@) + tokens_from(source@, 0, keep_ignored) =~= tokens_from(
            source@,
            0,
            keep_ignored,
        ));
        assert(diagnostic_views(diagnostics@) + problems_from(source@, 0) =~= problems_from(
            source@,
            0,
        ));
        while at < source.len()
            invariant
                self.wf(),
                at <= source@.len(),
                at < source@.len() ==> position@ == place_at(source@, at as int),
                token_views(tokens@) + tokens_from(source@, at as int, keep_ignored)
                    == tokens_from(source@, 0, keep_ignored),
                diagnostic_views(diagnostics@) + problems_from(source@, at as int)
                    == problems_from(source@, 0),
            decreases source@.len() - at,
        {
            let ghost seen = token_views(tokens@);
            let ghost found = diagnostic_views(diagnostics@);
            let lexeme = self.next_lexeme(source, at, position);
            let next = lexeme.next;
            let ghost rest = tokens_from(source@, next as int, keep_ignored);
            let ghost later = problems_from(source@, next as int);
            match lexeme.problem {
                Some(error) => {
                    let d = Diagnostic { error, position };
                    diagnostics.push(d);
                    assert(diagnostic_views(diagnostics@) =~= found.push(d@));
                    assert(found.push(d@) + later =~= found + (seq![d@] + later));
                },
                None => {},
            }
            let ignored = match lexeme.token.kind {
                TokenKind::Ignore => true,
                _ => false,
            };
            if keep_ignored || !ignored {
                let token = lexeme.token;
                tokens.push(token);
                assert(token_views(tokens@) =~= seen.push(token@));
                assert(seen.push(token@) + rest =~= seen + (seq![token@] + rest));
            }
            if next < source.len() {
                position = position.advance(source, at, next);
            }
            at = next;
        }
        assert(token_views(tokens@) + Seq::<TokenView>::empty() =~= token_views(tokens@));
        assert(diagnostic_views(diagnostics@) + Seq::<DiagnosticView>::empty()
            =~= diagnostic_views(diagnostics@));
        Scan { tokens, diagnostics }
    }

    /// Scans `source` and stops at the first problem: then that problem is
    /// all that is handed back. Else the tokens are.
    pub fn scan_strict(&self, source: &Vec<char>, keep_ignored: bool) -> (r: Result<
        Vec<Token>,
        Diagnostic,
    >)
        requires
            self.wf(),
        ensures
            strict_view(r) == strict_scan(source@, keep_ignored),
            r matches Ok(tokens) ==> {
                &&& in_source_order(token_views(tokens@))
                &&& all_placed(token_views(tokens@))
                &&& keep_ignored ==> concat_texts(token_views(tokens@)) == source@
                &&& !keep_ignored ==> all_meaningful(token_views(tokens@))
            },
    {
        proof {
            lemma_tokens_are_placed(source@, keep_ignored);
            lemma_tokens_in_source_order(source@, keep_ignored);
            lemma_texts_cover_source(source@);
            if problems_from(source@, 0).len() == 0 {
                lemma_clean_scan_is_meaningful(source@, 0);
            }
        }
        let mut tokens: Vec<Token> = Vec::new();
        let mut at: usize = 0;
        let mut position = Position::start();
        assert(token_views(tokens@) + tokens_from(source@, 0, keep_ignored) =~= tokens_from(
            source@,
            0,
            keep_ignored,
        ));
        while at < source.len()
            invariant
                self.wf(),
                at <= source@.len(),
                at < source@.len() ==> position@ == place_at(source@, at as int),
                token_views(tokens@) + tokens_from(source@, at as int, keep_ignored)
                    == tokens_from(source@, 0, keep_ignored),
                problems_from(source@, at as int) == problems_from(source@, 0),
            decreases source@.len() - at,
        {
            let ghost seen = token_views(tokens@);
            let lexeme = self.next_lexeme(source, at, position);
            let next = lexeme.next;
            let ghost rest = tokens_from(source@, next as int, keep_ignored);
            match lexeme.problem {
                Some(error) => {
                    return Err(Diagnostic { error, position });
                },
                None => {},
            }
            let ignored = match lexeme.token.kind {
                TokenKind::Ignore => true,
                _ => false,
            };
            if keep_ignored || !ignored {
                let token = lexeme.token;
                tokens.push(token);
                assert(token_views(tokens@) =~= seen.push(token@));
                assert(seen.push(token@) + rest =~= seen + (seq![token@] + rest));
            }
            if next < source.len() {
                position = position.advance(source, at, next);
            }
            at = next;
        }
        assert(token_views(tokens@) + Seq::<TokenView>::empty() =~= token_views(tokens@));
        Ok(tokens)
    }
}

} // verus!

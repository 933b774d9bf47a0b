//! What holds of every scan: the tokens cover the source, they come in
//! source order, and only whitespace and comments are left out.

use vstd::prelude::*;
use crate::chars::{in_class, is_space, lemma_run_at_least, lemma_run_members, CharClass};
use crate::classify::{is_number, lemma_lookup_finds, lemma_lookup_result, lookup};
use crate::error::ErrorView;
use crate::position::{lemma_place_bounds, lemma_place_monotonic, place_before};
use crate::rules::{
    lemma_no_operator_at, lemma_rule_len_bound, lemma_select_longest_then_first,
    lemma_word_len_bound, lemma_word_len_found, lemma_word_len_longest, rule_len, rule_of, select,
    starts_at, word_len, Rule,
};
use crate::scanner::{lemma_step_advances, next_offset, problems_from, step, token_at, tokens_from};
use crate::token::{
    all_meaningful, all_placed, concat_texts, in_source_order, visible, KindView, TokenView,
};
use crate::vocabulary::{
    lemma_keyword_spelling, lemma_vocabulary_sorted, spelling_at, vocabulary_len, word_at, Word,
};

verus! {

/// The offsets at which the tokens of [`tokens_from`] start.
pub open spec fn starts_from(s: Seq<char>, at: int, keep_ignored: bool) -> Seq<int>
    decreases s.len() - at,
{
    if !(0 <= at < s.len()) || !(at < next_offset(s, at) <= s.len()) {
        Seq::empty()
    } else {
        let rest = starts_from(s, next_offset(s, at), keep_ignored);
        if !keep_ignored && step(s, at).kind is Ignore {
            rest
        } else {
            seq![at] + rest
        }
    }
}

/// The texts of the tokens from `at` on, whitespace and comments included,
/// make up the source from `at` on.
pub proof fn lemma_texts_cover_source_from(s: Seq<char>, at: int)
    requires
        0 <= at <= s.len(),
    ensures
        concat_texts(tokens_from(s, at, true)) == s.subrange(at, s.len() as int),
    decreases s.len() - at,
{
    if at < s.len() {
        lemma_step_advances(s, at);
        let next = next_offset(s, at);
        let rest = tokens_from(s, next, true);
        let all = tokens_from(s, at, true);
        lemma_texts_cover_source_from(s, next);
        assert(all == seq![token_at(s, at)] + rest);
        assert(all.drop_first() =~= rest);
        assert(s.subrange(at, next) + s.subrange(next, s.len() as int) =~= s.subrange(
            at,
            s.len() as int,
        ));
    } else {
        assert(s.subrange(at, s.len() as int) =~= Seq::<char>::empty());
    }
}

/// Coverage: the texts of all tokens of a source, whitespace and comments
/// included, written one after the other are the source itself. No
/// character is dropped and none is duplicated.
pub proof fn lemma_texts_cover_source(s: Seq<char>)
    ensures
        concat_texts(tokens_from(s, 0, true)) == s,
{
    lemma_texts_cover_source_from(s, 0);
    assert(s.subrange(0, s.len() as int) =~= s);
}

/// A lexeme is of kind `Ignore` only where the whitespace rule or the
/// comment rule was selected, and then it has no problem.
pub proof fn lemma_ignored_is_whitespace_or_comment(s: Seq<char>, at: int)
    requires
        0 <= at < s.len(),
        step(s, at).kind is Ignore,
    ensures
        select(s, at) == Some(Rule::Whitespace) || select(s, at) == Some(Rule::Comment),
        step(s, at).problem is None,
{
}

/// Whether `text` is what stands between tokens: separators only, or a
/// comment, which starts with `//` and holds no line feed.
pub open spec fn is_filler(text: Seq<char>) -> bool {
    ||| forall|i: int| 0 <= i < text.len() ==> is_space(#[trigger] text[i])
    ||| {
        &&& text.len() >= 2
        &&& text[0] == '/'
        &&& text[1] == '/'
        &&& forall|i: int| 0 <= i < text.len() ==> #[trigger] text[i] != '\n'
    }
}

/// The text of a lexeme of kind `Ignore` is whitespace or a comment.
pub proof fn lemma_ignored_text_is_filler(s: Seq<char>, at: int)
    requires
        0 <= at < s.len(),
        step(s, at).kind is Ignore,
    ensures
        is_filler(token_at(s, at).text),
{
    lemma_step_advances(s, at);
    let text = token_at(s, at).text;
    if select(s, at) == Some(Rule::Whitespace) {
        assert forall|i: int| 0 <= i < text.len() implies is_space(#[trigger] text[i]) by {
            lemma_run_members(CharClass::Space, s, at, at + i);
        }
    } else {
        let mark = s.subrange(at, at + 2);
        assert(mark[0] == s[at] && mark[1] == s[at + 1]);
        assert forall|i: int| 0 <= i < text.len() implies #[trigger] text[i] != '\n' by {
            if i >= 2 {
                lemma_run_members(CharClass::NotNewline, s, at + 2, at + i);
            }
        }
    }
}

/// Coverage, seen from the tokens that are handed out: they are the tokens
/// of the full scan without those of kind `Ignore`; what was left out is
/// whitespace and comments; and with these put back between them, the texts
/// written one after the other are the source itself.
pub proof fn lemma_coverage(s: Seq<char>)
    ensures
        tokens_from(s, 0, false) == visible(tokens_from(s, 0, true)),
        forall|i: int|
            0 <= i < tokens_from(s, 0, true).len() && (#[trigger] tokens_from(s, 0, true)[i]).kind
                is Ignore ==> is_filler(tokens_from(s, 0, true)[i].text),
        concat_texts(tokens_from(s, 0, true)) == s,
{
    lemma_visible_tokens(s, 0);
    lemma_texts_cover_source(s);
    lemma_token_starts(s, 0, true);
    let all = tokens_from(s, 0, true);
    assert forall|i: int| 0 <= i < all.len() && (#[trigger] all[i]).kind is Ignore implies is_filler(
        all[i].text,
    ) by {
        let start = starts_from(s, 0, true)[i];
        assert(all[i] == token_at(s, start));
        lemma_ignored_text_is_filler(s, start);
    }
}

/// The tokens that are handed out when whitespace and comments are left
/// out are the tokens of the full scan without those of kind `Ignore`.
pub proof fn lemma_visible_tokens(s: Seq<char>, at: int)
    requires
        0 <= at <= s.len(),
    ensures
        tokens_from(s, at, false) == visible(tokens_from(s, at, true)),
    decreases s.len() - at,
{
    reveal_with_fuel(Seq::filter, 2);
    if at < s.len() {
        lemma_step_advances(s, at);
        let next = next_offset(s, at);
        lemma_visible_tokens(s, next);
        let head = seq![token_at(s, at)];
        let rest = tokens_from(s, next, true);
        let pred = |t: TokenView| !(t.kind is Ignore);
        Seq::filter_distributes_over_add(head, rest, pred);
        assert(head.drop_last() =~= Seq::<TokenView>::empty());
        if step(s, at).kind is Ignore {
            assert(head.filter(pred) =~= Seq::<TokenView>::empty());
            assert(head.filter(pred) + rest.filter(pred) =~= rest.filter(pred));
        } else {
            assert(head.filter(pred) =~= head);
        }
    }
}

/// No text is taken for valid in silence: a lexeme is of kind `Unknown`
/// exactly when it has a problem.
pub proof fn lemma_unknown_has_problem(s: Seq<char>, at: int)
    requires
        0 <= at < s.len(),
    ensures
        step(s, at).kind is Unknown <==> step(s, at).problem is Some,
{
    match select(s, at) {
        Some(rule) => {
            lemma_select_longest_then_first(s, at, rule);
            lemma_rule_len_bound(rule, s, at);
            let len = rule_len(rule, s, at);
            let text = s.subrange(at, at + len);
            match rule {
                Rule::Number => {
                    assert forall|i: int| 0 <= i < text.len() implies in_class(
                        CharClass::Digit,
                        #[trigger] text[i],
                    ) by {
                        lemma_run_members(CharClass::Digit, s, at, at + i);
                    }
                    assert(is_number(text));
                },
                Rule::Keyword | Rule::Operator | Rule::Punctuation => {
                    lemma_word_len_found(rule, s, at, vocabulary_len() as int);
                    let j = choose|j: int|
                        0 <= j < vocabulary_len() && rule_of(word_at(j)) == rule
                            && #[trigger] spelling_at(j) == text;
                    lemma_lookup_finds(rule, text, 0, j);
                },
                _ => {},
            }
        },
        None => {},
    }
}

/// A scan without a problem hands out no token of kind `Unknown`, and no
/// token of kind `Ignore` where whitespace and comments are left out.
pub proof fn lemma_clean_scan_is_meaningful(s: Seq<char>, at: int)
    requires
        0 <= at <= s.len(),
        problems_from(s, at).len() == 0,
    ensures
        all_meaningful(tokens_from(s, at, false)),
    decreases s.len() - at,
{
    if at < s.len() {
        lemma_step_advances(s, at);
        lemma_unknown_has_problem(s, at);
        let next = next_offset(s, at);
        let later = problems_from(s, next);
        match step(s, at).problem {
            Some(error) => {
                assert(problems_from(s, at).len() == 1 + later.len());
            },
            None => {},
        }
        lemma_clean_scan_is_meaningful(s, next);
    }
}

/// Whether `error` is one that a lexeme can have: a mistake, an unknown
/// token, a number that does not fit, or a string literal left open.
pub open spec fn is_lexical(error: ErrorView) -> bool {
    error is InvalidOperator || error is InvalidKeyword || error is UnknownToken
        || error is NumericOverflow || error is UnterminatedString
}

/// Every problem that a scan lists is lexical.
pub proof fn lemma_problems_are_lexical(s: Seq<char>, at: int)
    requires
        0 <= at <= s.len(),
    ensures
        forall|i: int|
            0 <= i < problems_from(s, at).len() ==> is_lexical(
                (#[trigger] problems_from(s, at)[i]).error,
            ),
    decreases s.len() - at,
{
    if at < s.len() {
        lemma_step_advances(s, at);
        lemma_problems_are_lexical(s, next_offset(s, at));
    }
}

/// Each token of [`tokens_from`] is the token that starts at the offset
/// that [`starts_from`] lists for it, and those offsets grow strictly.
pub proof fn lemma_token_starts(s: Seq<char>, at: int, keep_ignored: bool)
    requires
        0 <= at <= s.len(),
    ensures
        starts_from(s, at, keep_ignored).len() == tokens_from(s, at, keep_ignored).len(),
        forall|i: int|
            0 <= i < tokens_from(s, at, keep_ignored).len() ==> {
                &&& at <= #[trigger] starts_from(s, at, keep_ignored)[i] < s.len()
                &&& tokens_from(s, at, keep_ignored)[i] == token_at(
                    s,
                    starts_from(s, at, keep_ignored)[i],
                )
            },
        forall|i: int, j: int|
            0 <= i < j < starts_from(s, at, keep_ignored).len() ==> #[trigger] starts_from(
                s,
                at,
                keep_ignored,
            )[i] < #[trigger] starts_from(s, at, keep_ignored)[j],
    decreases s.len() - at,
{
    if at < s.len() {
        lemma_step_advances(s, at);
        let next = next_offset(s, at);
        lemma_token_starts(s, next, keep_ignored);
    }
}

/// Order: the tokens of a source come in source order, with or without
/// whitespace and comments. The line never goes back, and on one line the
/// column grows.
pub proof fn lemma_tokens_in_source_order(s: Seq<char>, keep_ignored: bool)
    ensures
        in_source_order(tokens_from(s, 0, keep_ignored)),
{
    let tokens = tokens_from(s, 0, keep_ignored);
    let starts = starts_from(s, 0, keep_ignored);
    lemma_token_starts(s, 0, keep_ignored);
    assert forall|i: int, j: int| 0 <= i < j < tokens.len() implies place_before(
        (#[trigger] tokens[i]).position,
        (#[trigger] tokens[j]).position,
    ) by {
        assert(starts[i] < starts[j]);
        lemma_place_monotonic(s, starts[i], starts[j]);
    }
}

/// Keywords only for exact matches: where a token is a keyword, the keyword
/// rule was selected, the text is a spelling of that keyword, and the
/// identifier that stands there is no longer than the keyword.
pub proof fn lemma_keyword_is_exact(s: Seq<char>, at: int)
    requires
        0 <= at < s.len(),
        step(s, at).kind is Keyword,
    ensures
        select(s, at) == Some(Rule::Keyword),
        rule_len(Rule::Identifier, s, at) == step(s, at).len,
        exists|j: int|
            0 <= j < vocabulary_len() && word_at(j) == Word::Keyword(step(s, at).kind->Keyword_0)
                && #[trigger] spelling_at(j) == token_at(s, at).text,
{
    let rule = select(s, at)->0;
    lemma_select_longest_then_first(s, at, rule);
    lemma_select_longest_then_first(s, at, Rule::Identifier);
    lemma_rule_len_bound(rule, s, at);
    let n = rule_len(rule, s, at) as int;
    let text = s.subrange(at, at + n);
    lemma_lookup_result(rule, text, 0);
    let j = choose|j: int|
        0 <= j < vocabulary_len() && word_at(j) == Word::Keyword(step(s, at).kind->Keyword_0)
            && rule_of(word_at(j)) == rule && #[trigger] spelling_at(j) == text;
    assert(rule == Rule::Keyword);
    assert forall|i: int| at + 1 <= i < at + n implies in_class(
        CharClass::IdentPart,
        #[trigger] s[i],
    ) by {
        lemma_keyword_spelling(j, i - at);
        assert(text[i - at] == s[i]);
    }
    lemma_keyword_spelling(j, 0);
    assert(text[0] == s[at]);
    lemma_run_at_least(CharClass::IdentPart, s, at + 1, n - 1);
}

/// Keywords first for exact matches: where the spelling of a keyword
/// stands and the identifier that stands there is exactly as long, the
/// token is that keyword, and it has no problem.
pub proof fn lemma_exact_keyword_wins(s: Seq<char>, at: int, index: int)
    requires
        0 <= at < s.len(),
        0 <= index < vocabulary_len(),
        word_at(index) is Keyword,
        starts_at(s, at, spelling_at(index)),
        rule_len(Rule::Identifier, s, at) == spelling_at(index).len(),
    ensures
        step(s, at).kind == KindView::Keyword(word_at(index)->Keyword_0),
        step(s, at).problem is None,
        step(s, at).len == spelling_at(index).len(),
{
    let spelling = spelling_at(index);
    let total = vocabulary_len() as int;
    let n = spelling.len() as int;
    lemma_keyword_spelling(index, 0);
    assert(s.subrange(at, at + n)[0] == s[at]);
    // The keyword rule accepts exactly the spelling.
    lemma_word_len_longest(Rule::Keyword, s, at, total, index);
    lemma_word_len_bound(Rule::Keyword, s, at, total);
    lemma_word_len_found(Rule::Keyword, s, at, total);
    let matched = word_len(Rule::Keyword, s, at, total) as int;
    let j = choose|j: int|
        0 <= j < total && rule_of(word_at(j)) == Rule::Keyword && #[trigger] spelling_at(j)
            == s.subrange(at, at + matched);
    assert forall|i: int| at + 1 <= i < at + matched implies in_class(
        CharClass::IdentPart,
        #[trigger] s[i],
    ) by {
        lemma_keyword_spelling(j, i - at);
        assert(s.subrange(at, at + matched)[i - at] == s[i]);
    }
    lemma_run_at_least(CharClass::IdentPart, s, at + 1, matched - 1);
    assert(matched == n);
    // No other rule accepts anything there.
    lemma_no_operator_at(Rule::Operator, s, at, total);
    lemma_no_operator_at(Rule::Punctuation, s, at, total);
    if starts_at(s, at, seq!['/', '/']) {
        assert(s.subrange(at, at + 2)[0] == s[at]);
    }
    lemma_select_longest_then_first(s, at, Rule::Keyword);
    lemma_select_longest_then_first(s, at, Rule::Identifier);
    assert(select(s, at) == Some(Rule::Keyword));
    // The spelling is found as the word at `index`, and no other.
    let text = s.subrange(at, at + n);
    lemma_lookup_finds(Rule::Keyword, text, 0, index);
    lemma_lookup_result(Rule::Keyword, text, 0);
    let found = choose|f: int|
        0 <= f < total && word_at(f) == lookup(Rule::Keyword, text, 0)->0 && rule_of(
            lookup(Rule::Keyword, text, 0)->0,
        ) == Rule::Keyword && #[trigger] spelling_at(f) == text;
    if found < index {
        lemma_vocabulary_sorted(found, index);
    } else if index < found {
        lemma_vocabulary_sorted(index, found);
    }
}

/// Longest operator: where a token is an operator, no spelling of an
/// operator or a punctuation mark that stands there is longer than its
/// text. So `**` is never taken for two `*`.
pub proof fn lemma_operator_is_longest(s: Seq<char>, at: int, index: int)
    requires
        0 <= at < s.len(),
        step(s, at).kind is Operator,
        0 <= index < vocabulary_len(),
        word_at(index) is Operator,
        starts_at(s, at, spelling_at(index)),
    ensures
        spelling_at(index).len() <= step(s, at).len,
{
    let rule = rule_of(word_at(index));
    lemma_select_longest_then_first(s, at, rule);
    lemma_word_len_longest(rule, s, at, vocabulary_len() as int, index);
}

/// The kind `Type` is reserved: no lexeme is of that kind.
pub proof fn lemma_no_type_tokens(s: Seq<char>, at: int)
    requires
        0 <= at < s.len(),
    ensures
        !(step(s, at).kind is Type),
{
}

/// Every token is placed: its line and its column are at least 1.
pub proof fn lemma_tokens_are_placed(s: Seq<char>, keep_ignored: bool)
    ensures
        all_placed(tokens_from(s, 0, keep_ignored)),
{
    let tokens = tokens_from(s, 0, keep_ignored);
    let starts = starts_from(s, 0, keep_ignored);
    lemma_token_starts(s, 0, keep_ignored);
    assert forall|i: int| 0 <= i < tokens.len() implies (#[trigger] tokens[i]).position.line >= 1
        && tokens[i].position.column >= 1 by {
        assert(tokens[i] == token_at(s, starts[i]));
        lemma_place_bounds(s, starts[i]);
    }
}

} // verus!

//! Scanning a text again: what a lexeme is depends on its own characters
//! and on where it stops, not on what stands around it.

use vstd::prelude::*;
use crate::chars::{in_class, is_ident_start, is_space, lemma_run_len_bound, run_len, CharClass};
use crate::laws::lemma_texts_cover_source;
use crate::rules::{
    lemma_quote_only_opens_strings, lemma_select_longest_then_first,
    lemma_space_only_starts_whitespace, lemma_string_close_bound, lemma_word_len_longest, priority,
    rule_at, rule_count, rule_len, rule_of, select, select_among, starts_at, string_close,
    word_len, Rule,
};
use crate::scanner::{lemma_step_advances, next_offset, step, token_at, tokens_from};
use crate::token::{concat_texts, kinds_of, spaced_texts, TokenView};
use crate::vocabulary::{lemma_spelling_chars, spelling_at, vocabulary, vocabulary_len, word_at};

verus! {

/// Whether `s` from `a` and `t` from `b` hold the same `n` characters.
pub open spec fn same_chars(s: Seq<char>, a: int, t: Seq<char>, b: int, n: int) -> bool {
    &&& 0 <= a
    &&& 0 <= b
    &&& 0 <= n
    &&& a + n <= s.len()
    &&& b + n <= t.len()
    &&& forall|i: int| a <= i < a + n ==> #[trigger] s[i] == t[i - a + b]
}

/// Whether `t` ends at `end` or holds a blank there.
pub open spec fn ends_or_blank(t: Seq<char>, end: int) -> bool {
    end == t.len() || (0 <= end < t.len() && t[end] == ' ')
}

/// The same characters make the same text.
pub proof fn lemma_same_chars_same_text(s: Seq<char>, a: int, t: Seq<char>, b: int, n: int, m: int)
    requires
        same_chars(s, a, t, b, n),
        0 <= m <= n,
    ensures
        s.subrange(a, a + m) == t.subrange(b, b + m),
{
    let x = s.subrange(a, a + m);
    let y = t.subrange(b, b + m);
    assert forall|i: int| 0 <= i < m implies #[trigger] x[i] == y[i] by {
        assert(s[a + i] == t[a + i - a + b]);
    }
    assert(x =~= y);
}

/// A run that stops inside the shared characters stops at the same place
/// in both texts.
pub proof fn lemma_run_inside(class: CharClass, s: Seq<char>, a: int, t: Seq<char>, b: int, n: int)
    requires
        same_chars(s, a, t, b, n),
        run_len(class, s, a) < n,
    ensures
        run_len(class, t, b) == run_len(class, s, a),
    decreases n,
{
    assert(s[a] == t[a - a + b]);
    if in_class(class, s[a]) {
        lemma_run_inside(class, s, a + 1, t, b + 1, n - 1);
    }
}

/// A run that takes all the shared characters, and more or not, takes
/// exactly those in a text that stops the run after them.
pub proof fn lemma_run_full(class: CharClass, s: Seq<char>, a: int, t: Seq<char>, b: int, n: int)
    requires
        same_chars(s, a, t, b, n),
        run_len(class, s, a) >= n,
        b + n == t.len() || !in_class(class, t[b + n]),
    ensures
        run_len(class, t, b) == n,
    decreases n,
{
    if n > 0 {
        assert(s[a] == t[a - a + b]);
        lemma_run_full(class, s, a + 1, t, b + 1, n - 1);
    }
}

/// Where the longest word of a rule lies inside the shared characters and
/// the other text ends or has a blank after them, the rule matches the
/// same word in both texts.
pub proof fn lemma_word_len_transfer(
    rule: Rule,
    s: Seq<char>,
    a: int,
    t: Seq<char>,
    b: int,
    n: int,
    k: int,
)
    requires
        same_chars(s, a, t, b, n),
        ends_or_blank(t, b + n),
        0 <= k <= vocabulary_len(),
        word_len(rule, s, a, vocabulary_len() as int) <= n,
    ensures
        word_len(rule, t, b, k) == word_len(rule, s, a, k),
    decreases k,
{
    if k > 0 {
        lemma_word_len_transfer(rule, s, a, t, b, n, k - 1);
        let j = k - 1;
        let e = spelling_at(j);
        assert(vocabulary()[j].spelling == e);
        assert(vocabulary()[j].word == word_at(j));
        if rule_of(word_at(j)) == rule {
            if e.len() <= n {
                lemma_same_chars_same_text(s, a, t, b, n, e.len() as int);
            } else {
                if starts_at(s, a, e) {
                    lemma_word_len_longest(rule, s, a, vocabulary_len() as int, j);
                }
                if starts_at(t, b, e) {
                    lemma_spelling_chars(j, n);
                    assert(t.subrange(b, b + e.len())[n] == t[b + n]);
                }
            }
        }
    }
}

/// A string literal that closes inside the shared characters closes at the
/// same place in both texts.
pub proof fn lemma_string_close_inside(
    s: Seq<char>,
    a: int,
    t: Seq<char>,
    b: int,
    n: int,
    from: int,
)
    requires
        same_chars(s, a, t, b, n),
        a <= from,
        string_close(s, from) matches Some(end) && end <= a + n,
    ensures
        string_close(t, from - a + b) == Some(string_close(s, from)->0 - a + b),
    decreases s.len() - from,
{
    lemma_string_close_bound(s, from);
    assert(s[from] == t[from - a + b]);
    if s[from] == '"' {
    } else if s[from] == '\\' {
        lemma_string_close_bound(s, from + 2);
        lemma_string_close_inside(s, a, t, b, n, from + 2);
    } else {
        lemma_string_close_bound(s, from + 1);
        lemma_string_close_inside(s, a, t, b, n, from + 1);
    }
}

/// A string literal that runs into the end of one text runs into the end
/// of any text that ends with the same characters.
pub proof fn lemma_string_open_to_end(
    s: Seq<char>,
    a: int,
    t: Seq<char>,
    b: int,
    n: int,
    from: int,
)
    requires
        same_chars(s, a, t, b, n),
        a + n == s.len(),
        b + n == t.len(),
        a <= from,
        string_close(s, from) is None,
    ensures
        string_close(t, from - a + b) is None,
    decreases s.len() - from,
{
    if from < s.len() {
        assert(s[from] == t[from - a + b]);
        if s[from] == '"' {
        } else if s[from] == '\\' {
            if from + 1 < s.len() {
                lemma_string_open_to_end(s, a, t, b, n, from + 2);
            }
        } else {
            lemma_string_open_to_end(s, a, t, b, n, from + 1);
        }
    }
}

/// What a rule accepts depends on the characters of the winning lexeme
/// alone. Let `s` at `a` and `t` at `b` share `n` characters, the length of
/// the lexeme that is selected in `s`, and let `t` end or have a blank
/// after them. Then a rule that accepts no more than `n` characters in `s`
/// accepts the same in `t`; for whitespace and comments, which a blank
/// would prolong, if it accepts less than `n`.
pub proof fn lemma_rule_len_transfer(rule: Rule, s: Seq<char>, a: int, t: Seq<char>, b: int, n: int)
    requires
        same_chars(s, a, t, b, n),
        n >= 1,
        ends_or_blank(t, b + n),
        rule_len(rule, s, a) <= n,
        rule == Rule::Whitespace || rule == Rule::Comment ==> rule_len(rule, s, a) < n,
        rule == Rule::StringLiteral && s[a] == '"' && rule_len(rule, s, a) == 0 ==> a + n
            == s.len() && b + n == t.len(),
    ensures
        rule_len(rule, t, b) == rule_len(rule, s, a),
{
    assert(s[a] == t[a - a + b]);
    match rule {
        Rule::Whitespace => {
            lemma_run_inside(CharClass::Space, s, a, t, b, n);
        },
        Rule::Comment => {
            let mark = seq!['/', '/'];
            if n >= 2 {
                lemma_same_chars_same_text(s, a, t, b, n, 2);
                if starts_at(s, a, mark) {
                    assert(same_chars(s, a + 2, t, b + 2, n - 2)) by {
                        assert forall|i: int| a + 2 <= i < a + n implies #[trigger] s[i] == t[i - (a
                            + 2) + (b + 2)] by {
                            assert(s[i] == t[i - a + b]);
                        }
                    }
                    lemma_run_inside(CharClass::NotNewline, s, a + 2, t, b + 2, n - 2);
                }
            } else {
                if starts_at(t, b, mark) {
                    assert(t.subrange(b, b + 2)[1] == t[b + 1]);
                }
                if starts_at(s, a, mark) {
                    lemma_run_len_bound(CharClass::NotNewline, s, a + 2);
                }
            }
        },
        Rule::Keyword | Rule::Operator | Rule::Punctuation => {
            lemma_word_len_transfer(rule, s, a, t, b, n, vocabulary_len() as int);
        },
        Rule::Identifier => {
            if is_ident_start(s[a]) {
                assert(same_chars(s, a + 1, t, b + 1, n - 1)) by {
                    assert forall|i: int| a + 1 <= i < a + n implies #[trigger] s[i] == t[i - (a
                        + 1) + (b + 1)] by {
                        assert(s[i] == t[i - a + b]);
                    }
                }
                if rule_len(rule, s, a) < n {
                    lemma_run_inside(CharClass::IdentPart, s, a + 1, t, b + 1, n - 1);
                } else {
                    lemma_run_full(CharClass::IdentPart, s, a + 1, t, b + 1, n - 1);
                }
            }
        },
        Rule::Number => {
            if rule_len(rule, s, a) < n {
                lemma_run_inside(CharClass::Digit, s, a, t, b, n);
            } else {
                lemma_run_full(CharClass::Digit, s, a, t, b, n);
            }
        },
        Rule::StringLiteral => {
            if s[a] == '"' {
                lemma_string_close_bound(s, a + 1);
                match string_close(s, a + 1) {
                    Some(end) => {
                        lemma_string_close_inside(s, a, t, b, n, a + 1);
                    },
                    None => {
                        lemma_string_open_to_end(s, a, t, b, n, a + 1);
                    },
                }
            }
        },
    }
}

/// Where every rule accepts in `t` at `b` what it accepts in `s` at `a`,
/// the same rule is selected.
pub proof fn lemma_select_transfer(s: Seq<char>, a: int, t: Seq<char>, b: int, k: int)
    requires
        0 <= k <= rule_count(),
        forall|i: int| 0 <= i < rule_count() ==> rule_len(#[trigger] rule_at(i), t, b) == rule_len(rule_at(i), s, a),
    ensures
        select_among(t, b, k) == select_among(s, a, k),
    decreases k,
{
    if k > 0 {
        lemma_select_transfer(s, a, t, b, k - 1);
        assert(rule_len(rule_at(k - 1), t, b) == rule_len(rule_at(k - 1), s, a));
        match select_among(s, a, k - 1) {
            Some(best) => {
                assert(rule_at(priority(best)) == best);
            },
            None => {},
        }
    }
}

/// The lexeme is the same wherever its characters stand. Let `t` at `b`
/// hold the characters of the lexeme that starts in `s` at `a`, and end or
/// have a blank after them; let that lexeme be no whitespace and no
/// comment; and where it is a string literal left open, let `t` end with
/// it. Then the lexeme that starts in `t` at `b` is the same: as long, of
/// the same kind, with the same problem.
pub proof fn lemma_step_transfer(s: Seq<char>, a: int, t: Seq<char>, b: int)
    requires
        0 <= a < s.len(),
        same_chars(s, a, t, b, step(s, a).len as int),
        ends_or_blank(t, b + step(s, a).len),
        !(step(s, a).kind is Ignore),
        select(s, a) is None && s[a] == '"' ==> b + step(s, a).len == t.len(),
    ensures
        step(t, b) == step(s, a),
{
    lemma_step_advances(s, a);
    let n = step(s, a).len as int;
    assert(s[a] == t[a - a + b]);
    lemma_same_chars_same_text(s, a, t, b, n, n);
    assert forall|i: int| 0 <= i < rule_count() implies rule_len(#[trigger] rule_at(i), t, b)
        == rule_len(rule_at(i), s, a) by {
        let rule = rule_at(i);
        lemma_select_longest_then_first(s, a, rule);
        match select(s, a) {
            Some(winner) => {
                if s[a] == '"' && winner != Rule::StringLiteral {
                    lemma_quote_only_opens_strings(winner, s, a);
                }
            },
            None => {},
        }
        lemma_rule_len_transfer(rule, s, a, t, b, n);
    }
    lemma_select_transfer(s, a, t, b, rule_count() as int);
    assert(rule_at(2) == Rule::Keyword);
    match select(s, a) {
        Some(winner) => {
            assert(rule_at(priority(winner)) == winner);
        },
        None => {
            if s[a] != '"' {
                lemma_run_full(CharClass::NotSpace, s, a, t, b, n);
            } else {
                assert(t.subrange(b, t.len() as int) == t.subrange(b, b + n));
                assert(s.subrange(a, s.len() as int) == s.subrange(a, a + n));
            }
        },
    }
}

/// A lexeme that starts with a separator is whitespace.
pub proof fn lemma_space_is_ignored(s: Seq<char>, at: int)
    requires
        0 <= at < s.len(),
        is_space(s[at]),
    ensures
        select(s, at) == Some(Rule::Whitespace),
        step(s, at).kind is Ignore,
        step(s, at).len == run_len(CharClass::Space, s, at),
{
    lemma_select_longest_then_first(s, at, Rule::Whitespace);
    match select(s, at) {
        Some(winner) => {
            if winner != Rule::Whitespace {
                lemma_space_only_starts_whitespace(winner, s, at);
            }
        },
        None => {},
    }
}

/// The first token that is handed out, where whitespace and comments are
/// left out, has a text that starts with no separator.
pub proof fn lemma_first_visible(s: Seq<char>, at: int)
    requires
        0 <= at <= s.len(),
        tokens_from(s, at, false).len() > 0,
    ensures
        tokens_from(s, at, false)[0].text.len() >= 1,
        !is_space(tokens_from(s, at, false)[0].text[0]),
    decreases s.len() - at,
{
    lemma_step_advances(s, at);
    if step(s, at).kind is Ignore {
        lemma_first_visible(s, next_offset(s, at));
    } else {
        if is_space(s[at]) {
            lemma_space_is_ignored(s, at);
        }
    }
}

/// The kinds of a token followed by others.
pub proof fn lemma_kinds_of_cons(first: TokenView, others: Seq<TokenView>)
    ensures
        kinds_of(seq![first] + others) == seq![first.kind] + kinds_of(others),
{
    assert(kinds_of(seq![first] + others) =~= seq![first.kind] + kinds_of(others));
}

/// A lexeme that is written at the end of a text is found there again, and
/// nothing after it.
pub proof fn lemma_rescan_last(s: Seq<char>, at: int, prefix: Seq<char>)
    requires
        0 <= at < s.len(),
        !(step(s, at).kind is Ignore),
    ensures
        ({
            let t = prefix + token_at(s, at).text;
            let p = prefix.len() as int;
            tokens_from(t, p, false) == seq![token_at(t, p)] && token_at(t, p).kind == step(
                s,
                at,
            ).kind
        }),
{
    lemma_step_advances(s, at);
    let token = token_at(s, at);
    let n = step(s, at).len as int;
    let t = prefix + token.text;
    let p = prefix.len() as int;
    assert(same_chars(s, at, t, p, n)) by {
        assert forall|i: int| at <= i < at + n implies #[trigger] s[i] == t[i - at + p] by {
            assert(token.text[i - at] == s[i]);
        }
    }
    lemma_step_transfer(s, at, t, p);
    assert(next_offset(t, p) == t.len());
    assert(tokens_from(t, p + n, false) =~= Seq::<TokenView>::empty());
    assert(seq![token_at(t, p)] + Seq::<TokenView>::empty() =~= seq![token_at(t, p)]);
}

/// A lexeme that is written before a blank and a text that starts with no
/// separator is found there again, and after it the scan goes on behind the
/// blank.
pub proof fn lemma_rescan_spaced(s: Seq<char>, at: int, prefix: Seq<char>, tail: Seq<char>)
    requires
        0 <= at < s.len(),
        !(step(s, at).kind is Ignore),
        next_offset(s, at) < s.len(),
        tail.len() >= 1,
        !is_space(tail[0]),
    ensures
        ({
            let t = prefix + token_at(s, at).text + seq![' '] + tail;
            let p = prefix.len() as int;
            let n = step(s, at).len as int;
            tokens_from(t, p, false) == seq![token_at(t, p)] + tokens_from(t, p + n + 1, false)
                && token_at(t, p).kind == step(s, at).kind
        }),
{
    lemma_step_advances(s, at);
    let token = token_at(s, at);
    let n = step(s, at).len as int;
    let t = prefix + token.text + seq![' '] + tail;
    let p = prefix.len() as int;
    assert(t[p + n] == ' ');
    assert(t[p + n + 1] == tail[0]);
    assert(same_chars(s, at, t, p, n)) by {
        assert forall|i: int| at <= i < at + n implies #[trigger] s[i] == t[i - at + p] by {
            assert(token.text[i - at] == s[i]);
        }
    }
    lemma_step_transfer(s, at, t, p);
    lemma_space_is_ignored(t, p + n);
    assert(run_len(CharClass::Space, t, p + n + 1) == 0);
    assert(next_offset(t, p) == p + n);
    assert(next_offset(t, p + n) == p + n + 1);
    assert(tokens_from(t, p + n, false) == tokens_from(t, p + n + 1, false));
    assert(tokens_from(t, p, false) == seq![token_at(t, p)] + tokens_from(t, p + n, false));
}

/// Scanning the texts of the tokens behind `prefix`, one blank between each
/// two, gives tokens of the same kinds again.
pub proof fn lemma_respaced_from(s: Seq<char>, at: int, prefix: Seq<char>)
    requires
        0 <= at <= s.len(),
    ensures
        kinds_of(
            tokens_from(
                prefix + spaced_texts(tokens_from(s, at, false)),
                prefix.len() as int,
                false,
            ),
        ) == kinds_of(tokens_from(s, at, false)),
    decreases s.len() - at,
{
    let found = tokens_from(s, at, false);
    let t = prefix + spaced_texts(found);
    let p = prefix.len() as int;
    if at >= s.len() {
        assert(t =~= prefix);
        assert(kinds_of(tokens_from(t, p, false)) =~= kinds_of(found));
    } else {
        lemma_step_advances(s, at);
        let next = next_offset(s, at);
        if step(s, at).kind is Ignore {
            lemma_respaced_from(s, next, prefix);
        } else {
            let token = token_at(s, at);
            let n = step(s, at).len as int;
            let rest = tokens_from(s, next, false);
            assert(found == seq![token] + rest);
            assert(found[0] == token);
            assert(found.drop_first() =~= rest);
            lemma_kinds_of_cons(token, rest);
            if rest.len() == 0 {
                assert(t =~= prefix + token.text);
                lemma_rescan_last(s, at, prefix);
                lemma_kinds_of_cons(token_at(t, p), Seq::<TokenView>::empty());
                assert(seq![token_at(t, p)] + Seq::<TokenView>::empty() =~= seq![token_at(t, p)]);
                assert(kinds_of(rest) =~= kinds_of(Seq::<TokenView>::empty()));
            } else {
                let tail = spaced_texts(rest);
                lemma_first_visible(s, next);
                assert(tail[0] == rest[0].text[0]);
                assert(t =~= prefix + token.text + seq![' '] + tail);
                lemma_rescan_spaced(s, at, prefix, tail);
                let longer = prefix + token.text + seq![' '];
                assert(t =~= longer + tail);
                assert(longer.len() == p + n + 1);
                lemma_respaced_from(s, next, longer);
                lemma_kinds_of_cons(token_at(t, p), tokens_from(t, p + n + 1, false));
            }
        }
    }
}

/// Scanning again, with blanks: the texts of the tokens of a source,
/// whitespace and comments left out, written with one blank between each
/// two scan to tokens of the same kinds as the source did.
pub proof fn lemma_respaced_keeps_kinds(s: Seq<char>)
    ensures
        kinds_of(tokens_from(spaced_texts(tokens_from(s, 0, false)), 0, false)) == kinds_of(
            tokens_from(s, 0, false),
        ),
{
    let empty = Seq::<char>::empty();
    lemma_respaced_from(s, 0, empty);
    assert(empty + spaced_texts(tokens_from(s, 0, false)) =~= spaced_texts(
        tokens_from(s, 0, false),
    ));
}

/// Scanning again, as it stood: the texts of all tokens of a source,
/// whitespace and comments included, written one after the other scan to
/// tokens of the same kinds as the source did.
pub proof fn lemma_rescan_keeps_kinds(s: Seq<char>, keep_ignored: bool)
    ensures
        kinds_of(tokens_from(concat_texts(tokens_from(s, 0, true)), 0, keep_ignored)) == kinds_of(
            tokens_from(s, 0, keep_ignored),
        ),
{
    lemma_texts_cover_source(s);
}

} // verus!

use lexer::distance::distance;
use lexer::vocabulary::Vocabulary;
use lexer::{tokenize, tokenize_lenient, ParsingError, Token, TokenKind};

fn chars(text: &str) -> Vec<char> {
    text.chars().collect()
}

const SOURCES: [&str; 8] = [
    "let x = 5;",
    "func add(a b) {\n    return a + b; // sum\n}\n",
    "x ** 2 -> y\t!= z\r\n",
    "  // only a comment",
    "s = \"a \\\" b\" ;\n\n\nwhile s == \"\" { s = s / 2 }",
    "fnc add() { x @ 1; y >= 2 }",
    "a // one\n// two\nb \"open\nand on",
    "nullptr null nullp 007 99999999999999999999 é",
];

fn all_tokens(source: &str) -> Vec<Token> {
    Vocabulary::new().scan_lenient(&chars(source), true).tokens
}

fn visible_kinds(source: &str) -> Vec<TokenKind> {
    Vocabulary::new()
        .scan_lenient(&chars(source), false)
        .tokens
        .into_iter()
        .map(|t| t.kind)
        .collect()
}

#[test]
fn texts_of_all_tokens_make_up_the_source() {
    for source in SOURCES {
        let written: String = all_tokens(source).iter().map(|t| t.text.as_str()).collect();
        assert_eq!(written, source);
    }
}

#[test]
fn ignored_tokens_are_whitespace_and_comments() {
    for source in SOURCES {
        for token in all_tokens(source) {
            if token.kind == TokenKind::Ignore {
                let blank = token.text.chars().all(|c| " \t\r\n".contains(c));
                assert!(blank || token.text.starts_with("//"));
            }
        }
    }
}

#[test]
fn visible_tokens_are_all_tokens_without_the_ignored() {
    for source in SOURCES {
        let kept: Vec<TokenKind> = all_tokens(source)
            .into_iter()
            .map(|t| t.kind)
            .filter(|k| *k != TokenKind::Ignore)
            .collect();
        assert_eq!(kept, visible_kinds(source));
    }
}

#[test]
fn positions_grow_along_the_tokens() {
    for source in SOURCES {
        let tokens = all_tokens(source);
        for pair in tokens.windows(2) {
            let a = pair[0].position;
            let b = pair[1].position;
            assert!(a.line < b.line || (a.line == b.line && a.column < b.column));
        }
        let scan = tokenize_lenient(source.as_bytes()).unwrap();
        for pair in scan.tokens.windows(2) {
            let a = pair[0].position;
            let b = pair[1].position;
            assert!(a.line < b.line || (a.line == b.line && a.column < b.column));
        }
    }
}

#[test]
fn scanning_all_texts_again_keeps_the_kinds() {
    for source in SOURCES {
        let written: String = all_tokens(source).iter().map(|t| t.text.as_str()).collect();
        assert_eq!(visible_kinds(&written), visible_kinds(source));
    }
}

#[test]
fn scanning_the_texts_with_blanks_between_keeps_the_kinds() {
    for source in SOURCES {
        let scan = Vocabulary::new().scan_lenient(&chars(source), false);
        let texts: Vec<&str> = scan.tokens.iter().map(|t| t.text.as_str()).collect();
        assert_eq!(visible_kinds(&texts.join(" ")), visible_kinds(source));
    }
}

#[test]
fn texts_without_blanks_between_may_scan_otherwise() {
    let tokens = tokenize(b"let x").unwrap();
    let glued: String = tokens.iter().map(|t| t.text.as_str()).collect();
    assert_eq!(glued, "letx");
    assert_eq!(
        tokenize(glued.as_bytes()).unwrap().into_iter().map(|t| t.kind).collect::<Vec<_>>(),
        vec![TokenKind::Identifier("letx".to_string())]
    );
}

#[test]
fn strict_tokens_are_never_ignored_or_unknown() {
    for source in SOURCES {
        if let Ok(tokens) = tokenize(source.as_bytes()) {
            for token in tokens {
                assert_ne!(token.kind, TokenKind::Ignore);
                assert_ne!(token.kind, TokenKind::Unknown);
            }
        }
    }
}

#[test]
fn unknown_tokens_come_with_a_problem_each() {
    for source in SOURCES {
        let scan = Vocabulary::new().scan_lenient(&chars(source), false);
        let unknown = scan.tokens.iter().filter(|t| t.kind == TokenKind::Unknown).count();
        assert_eq!(unknown, scan.diagnostics.len());
    }
}

#[test]
fn strict_scan_reports_the_first_problem_of_the_lenient_scan() {
    for source in SOURCES {
        let scan = Vocabulary::new().scan_lenient(&chars(source), false);
        let strict = Vocabulary::new().scan_strict(&chars(source), false);
        match scan.diagnostics.first() {
            Some(first) => assert_eq!(strict, Err(first.clone())),
            None => assert_eq!(strict, Ok(scan.tokens)),
        }
    }
}

#[test]
fn strict_scan_keeps_whitespace_and_comments_on_request() {
    let tokens = Vocabulary::new().scan_strict(&chars("a // b\n c"), true).unwrap();
    let texts: Vec<&str> = tokens.iter().map(|t| t.text.as_str()).collect();
    assert_eq!(texts, vec!["a", " ", "// b", "\n ", "c"]);
    assert_eq!(
        Vocabulary::new().scan_strict(&chars("a @"), true).map_err(|d| d.error),
        Err(ParsingError::UnknownToken("@".to_string()))
    );
}

#[test]
fn distance_is_zero_only_between_equal_texts() {
    let words = ["", "a", "let", "lett", "tel", "func"];
    for a in words {
        for b in words {
            assert_eq!(distance(&chars(a), &chars(b)) == 0, a == b);
        }
    }
}

#[test]
fn distance_lies_between_length_gap_and_longer_length() {
    let words = ["", "a", "let", "lett", "tel", "func", "interface"];
    for a in words {
        for b in words {
            let d = distance(&chars(a), &chars(b));
            assert!(d >= a.len().abs_diff(b.len()));
            assert!(d <= a.len().max(b.len()));
        }
    }
}

#[test]
fn vocabulary_is_sorted_by_spelling() {
    let vocabulary = Vocabulary::new();
    for pair in vocabulary.entries.windows(2) {
        assert!(pair[0].spelling < pair[1].spelling);
    }
}

#[test]
fn suggestions_are_ranked_by_distance_then_spelling() {
    let vocabulary = Vocabulary::new();
    for written in [">=", "mets", "fnc", "nul", "els", "=>", "ef", "publi"] {
        let word = chars(written);
        let mistake = match vocabulary.diagnose(&word) {
            Some(ParsingError::InvalidKeyword(m)) => m,
            Some(ParsingError::InvalidOperator(m)) => m,
            other => panic!("no suggestion for {written}: {other:?}"),
        };
        let mut all = vec![mistake.potential.clone()];
        all.extend(mistake.other_potentials.iter().cloned());
        let ranks: Vec<(usize, &str)> =
            all.iter().map(|w| (distance(&word, &chars(w)), w.as_str())).collect();
        for pair in ranks.windows(2) {
            assert!(pair[0] < pair[1]);
        }
        for (d, _) in &ranks {
            assert!(*d <= 2 && 2 * *d <= word.len());
        }
        let close = vocabulary
            .entries
            .iter()
            .filter(|e| {
                let d = distance(&word, &e.spelling);
                d <= 2 && 2 * d <= word.len()
            })
            .count();
        assert_eq!(close, all.len());
    }
}

use lexer::distance::{distance, distance_within};
use lexer::vocabulary::Vocabulary;
use lexer::{tokenize, tokenize_lenient, Mistake, ParsingError, Position, TokenKind};

fn chars(text: &str) -> Vec<char> {
    text.chars().collect()
}

fn mistake(written: &str, potential: &str, others: &[&str]) -> Mistake {
    Mistake {
        written: written.to_string(),
        potential: potential.to_string(),
        other_potentials: others.iter().map(|s| s.to_string()).collect(),
    }
}

#[test]
fn distance_of_equal_texts_is_zero() {
    assert_eq!(distance(&chars("while"), &chars("while")), 0);
    assert_eq!(distance(&chars(""), &chars("")), 0);
}

#[test]
fn distance_to_the_empty_text_is_the_length() {
    assert_eq!(distance(&chars(""), &chars("abc")), 3);
    assert_eq!(distance(&chars("abcd"), &chars("")), 4);
}

#[test]
fn distance_counts_each_edit_once() {
    assert_eq!(distance(&chars("fnc"), &chars("func")), 1);
    assert_eq!(distance(&chars("func"), &chars("fnc")), 1);
    assert_eq!(distance(&chars("lett"), &chars("let")), 1);
    assert_eq!(distance(&chars("kitten"), &chars("sitting")), 3);
    assert_eq!(distance(&chars("flaw"), &chars("lawn")), 2);
    assert_eq!(distance(&chars("abc"), &chars("xyz")), 3);
}

#[test]
fn distance_within_a_limit() {
    assert_eq!(distance_within(&chars("fnc"), &chars("func"), 2), Some(1));
    assert_eq!(distance_within(&chars("flaw"), &chars("lawn"), 2), Some(2));
    assert_eq!(distance_within(&chars("kitten"), &chars("sitting"), 2), None);
    assert_eq!(distance_within(&chars("a"), &chars("interface"), 2), None);
    assert_eq!(distance_within(&chars("abc"), &chars("abc"), 0), Some(0));
}

#[test]
fn diagnose_suggests_the_closest_keyword() {
    let vocabulary = Vocabulary::new();
    assert_eq!(
        vocabulary.diagnose(&chars("fnc")),
        Some(ParsingError::InvalidKeyword(mistake("fnc", "func", &[])))
    );
    assert_eq!(
        vocabulary.diagnose(&chars("whle")),
        Some(ParsingError::InvalidKeyword(mistake("whle", "while", &[])))
    );
}

#[test]
fn diagnose_ranks_by_distance_then_by_spelling() {
    let vocabulary = Vocabulary::new();
    // "nulll" is one edit from "null" and three from "nullptr".
    assert_eq!(
        vocabulary.diagnose(&chars("nulll")),
        Some(ParsingError::InvalidKeyword(mistake("nulll", "null", &[])))
    );
    // At distance 1 from ">=": "!=", "=" and "==", in that order.
    assert_eq!(
        vocabulary.diagnose(&chars(">=")),
        Some(ParsingError::InvalidOperator(mistake(">=", "!=", &["=", "=="])))
    );
    // "publik" is one edit from "public"; "mets" is two from "let" and from "mut".
    assert_eq!(
        vocabulary.diagnose(&chars("publik")),
        Some(ParsingError::InvalidKeyword(mistake("publik", "public", &[])))
    );
    assert_eq!(
        vocabulary.diagnose(&chars("mets")),
        Some(ParsingError::InvalidKeyword(mistake("mets", "let", &["mut"])))
    );
}

#[test]
fn diagnose_keeps_silent_when_nothing_is_close() {
    let vocabulary = Vocabulary::new();
    assert_eq!(vocabulary.diagnose(&chars("x")), None);
    assert_eq!(vocabulary.diagnose(&chars("add")), None);
    assert_eq!(vocabulary.diagnose(&chars("@")), None);
    assert_eq!(vocabulary.diagnose(&chars("somethingelse")), None);
    assert_eq!(vocabulary.diagnose(&chars("")), None);
}

#[test]
fn diagnose_threshold_is_half_the_length() {
    let vocabulary = Vocabulary::new();
    // One character: only distance 0 is allowed, so "i" is not taken for "if".
    assert_eq!(vocabulary.diagnose(&chars("i")), None);
    // Three characters: distance 1 at most, so "whl" (2 from "while") is unknown.
    assert_eq!(vocabulary.diagnose(&chars("whl")), None);
    // Four characters: distance 2 is allowed.
    assert_eq!(
        vocabulary.diagnose(&chars("whil")),
        Some(ParsingError::InvalidKeyword(mistake("whil", "while", &[])))
    );
}

#[test]
fn near_miss_operator_is_reported() {
    assert_eq!(
        tokenize(b"x >= 1"),
        Err(ParsingError::InvalidOperator(mistake(">=", "!=", &["=", "=="])))
    );
}

#[test]
fn unknown_text_is_reported() {
    assert_eq!(tokenize(b"x @ 1"), Err(ParsingError::UnknownToken("@".to_string())));
    assert_eq!(tokenize(b"a #tag b"), Err(ParsingError::UnknownToken("#tag".to_string())));
}

#[test]
fn first_problem_wins_in_strict_mode() {
    assert_eq!(tokenize(b"x @ fnc"), Err(ParsingError::UnknownToken("@".to_string())));
    assert_eq!(
        tokenize(b"fnc @ x"),
        Err(ParsingError::InvalidKeyword(mistake("fnc", "func", &[])))
    );
}

#[test]
fn lenient_mode_collects_every_problem() {
    let scan = tokenize_lenient(b"fnc add() {\n  x @ 1;\n}").unwrap();
    let kinds: Vec<TokenKind> = scan.tokens.iter().map(|t| t.kind.clone()).collect();
    assert_eq!(kinds[0], TokenKind::Unknown);
    assert_eq!(scan.tokens[0].text, "fnc");
    assert_eq!(kinds[1], TokenKind::Identifier("add".to_string()));
    assert_eq!(scan.diagnostics.len(), 2);
    assert_eq!(
        scan.diagnostics[0].error,
        ParsingError::InvalidKeyword(mistake("fnc", "func", &[]))
    );
    assert_eq!(scan.diagnostics[0].position, Position { line: 1, column: 1 });
    assert_eq!(scan.diagnostics[1].error, ParsingError::UnknownToken("@".to_string()));
    assert_eq!(scan.diagnostics[1].position, Position { line: 2, column: 5 });
    let unknown: Vec<&str> = scan
        .tokens
        .iter()
        .filter(|t| t.kind == TokenKind::Unknown)
        .map(|t| t.text.as_str())
        .collect();
    assert_eq!(unknown, vec!["fnc", "@"]);
}

#[test]
fn lenient_mode_without_problems_agrees_with_strict_mode() {
    let source = b"let x = 5; // five\nreturn x;";
    let scan = tokenize_lenient(source).unwrap();
    assert!(scan.diagnostics.is_empty());
    assert_eq!(Ok(scan.tokens), tokenize(source));
}

#[test]
fn lenient_mode_still_rejects_empty_and_undecodable_buffers() {
    assert_eq!(tokenize_lenient(b"  \n"), Err(ParsingError::EmptyFile));
    assert_eq!(tokenize_lenient(&[0xff, 0xfe]), Err(ParsingError::DecodeError));
}

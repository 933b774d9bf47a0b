use lexer::classify::{parse_number, resolve_escapes, same_text};
use lexer::chars::{char_in_class, scan_run, CharClass};
use lexer::rules::{find_string_close, starts_with, Rule};
use lexer::text::{chars_between, chars_of, decode, string_of};
use lexer::vocabulary::{Vocabulary, Word};
use lexer::{
    tokenize, Keywords, Mistake, Operators, ParsingError, Position, Token, TokenKind,
};

fn chars(text: &str) -> Vec<char> {
    text.chars().collect()
}

fn kinds(source: &str) -> Vec<TokenKind> {
    tokenize(source.as_bytes()).unwrap().into_iter().map(|t| t.kind).collect()
}

fn texts(source: &str) -> Vec<String> {
    tokenize(source.as_bytes()).unwrap().into_iter().map(|t| t.text).collect()
}

#[test]
fn decode_accepts_utf8_only() {
    assert_eq!(decode("héllo".as_bytes()), Some(chars("héllo")));
    assert_eq!(decode(b""), Some(vec![]));
    assert_eq!(decode(&[0x68, 0xff]), None);
    assert_eq!(decode(&[0xc3]), None);
}

#[test]
fn undecodable_buffer_is_a_decode_error() {
    assert_eq!(tokenize(&[0x6c, 0x65, 0x74, 0xff]), Err(ParsingError::DecodeError));
}

#[test]
fn text_helpers_copy_ranges() {
    let source = chars("let x");
    assert_eq!(chars_of("let x"), source);
    assert_eq!(string_of(&source, 0, 3), "let");
    assert_eq!(string_of(&source, 4, 5), "x");
    assert_eq!(string_of(&source, 2, 2), "");
    assert_eq!(chars_between(&source, 1, 4), chars("et "));
}

#[test]
fn blank_buffer_is_an_empty_file() {
    assert_eq!(tokenize(b"   "), Err(ParsingError::EmptyFile));
    assert_eq!(tokenize(b"\n\t \r\n"), Err(ParsingError::EmptyFile));
}

#[test]
fn comment_after_blanks_gives_no_token() {
    assert_eq!(tokenize(b"  // only this\n"), Ok(vec![]));
}

#[test]
fn character_classes() {
    assert!(char_in_class(CharClass::Space, ' '));
    assert!(char_in_class(CharClass::Space, '\n'));
    assert!(!char_in_class(CharClass::Space, 'a'));
    assert!(char_in_class(CharClass::Digit, '0'));
    assert!(char_in_class(CharClass::Digit, '9'));
    assert!(!char_in_class(CharClass::Digit, 'a'));
    assert!(char_in_class(CharClass::IdentStart, '_'));
    assert!(char_in_class(CharClass::IdentStart, 'Z'));
    assert!(!char_in_class(CharClass::IdentStart, '1'));
    assert!(char_in_class(CharClass::IdentPart, '1'));
    assert!(!char_in_class(CharClass::IdentPart, '-'));
    assert!(!char_in_class(CharClass::IdentPart, 'é'));
    assert!(char_in_class(CharClass::NotNewline, ' '));
    assert!(!char_in_class(CharClass::NotNewline, '\n'));
    assert!(char_in_class(CharClass::NotSpace, '@'));
    assert!(!char_in_class(CharClass::NotSpace, '\t'));
}

#[test]
fn runs_are_measured_from_their_start() {
    let source = chars("abc123  x");
    assert_eq!(scan_run(CharClass::IdentPart, &source, 0), 6);
    assert_eq!(scan_run(CharClass::Digit, &source, 0), 0);
    assert_eq!(scan_run(CharClass::Digit, &source, 3), 3);
    assert_eq!(scan_run(CharClass::Space, &source, 6), 2);
    assert_eq!(scan_run(CharClass::NotSpace, &source, 8), 1);
    assert_eq!(scan_run(CharClass::NotSpace, &source, 9), 0);
}

#[test]
fn words_are_found_where_they_stand() {
    let source = chars("a == b");
    assert!(starts_with(&source, 2, &chars("==")));
    assert!(starts_with(&source, 2, &chars("=")));
    assert!(!starts_with(&source, 1, &chars("==")));
    assert!(!starts_with(&source, 5, &chars("b=")));
    assert!(starts_with(&source, 6, &chars("")));
    assert!(same_text(&chars("let"), &chars("let")));
    assert!(!same_text(&chars("let"), &chars("lett")));
    assert!(!same_text(&chars("let"), &chars("lit")));
}

#[test]
fn string_close_skips_escaped_quotes() {
    assert_eq!(find_string_close(&chars("\"ab\" c"), 1), Some(4));
    assert_eq!(find_string_close(&chars("\"a\\\"b\" c"), 1), Some(6));
    assert_eq!(find_string_close(&chars("\"abc"), 1), None);
    assert_eq!(find_string_close(&chars("\"abc\\"), 1), None);
    assert_eq!(find_string_close(&chars("\"abc\\\""), 1), None);
}

#[test]
fn each_rule_measures_its_own_lexeme() {
    let vocabulary = Vocabulary::new();
    let source = chars("nullptr+ // c\n\"s\" 42;");
    assert_eq!(vocabulary.match_length(Rule::Keyword, &source, 0), 7);
    assert_eq!(vocabulary.match_length(Rule::Identifier, &source, 0), 7);
    assert_eq!(vocabulary.match_length(Rule::Number, &source, 0), 0);
    assert_eq!(vocabulary.match_length(Rule::Operator, &source, 7), 1);
    assert_eq!(vocabulary.match_length(Rule::Whitespace, &source, 8), 1);
    assert_eq!(vocabulary.match_length(Rule::Comment, &source, 9), 4);
    assert_eq!(vocabulary.match_length(Rule::Operator, &source, 9), 1);
    assert_eq!(vocabulary.match_length(Rule::StringLiteral, &source, 14), 3);
    assert_eq!(vocabulary.match_length(Rule::Number, &source, 18), 2);
    assert_eq!(vocabulary.match_length(Rule::Punctuation, &source, 20), 1);
    assert_eq!(vocabulary.match_length(Rule::Operator, &source, 20), 0);
    assert_eq!(vocabulary.match_length(Rule::Punctuation, &source, 21), 0);
}

#[test]
fn longest_lexeme_wins_and_ties_go_to_the_first_rule() {
    let vocabulary = Vocabulary::new();
    assert_eq!(vocabulary.select_rule(&chars("let x"), 0), Some((Rule::Keyword, 3)));
    assert_eq!(vocabulary.select_rule(&chars("letter"), 0), Some((Rule::Identifier, 6)));
    assert_eq!(vocabulary.select_rule(&chars("**2"), 0), Some((Rule::Operator, 2)));
    assert_eq!(vocabulary.select_rule(&chars("*2"), 0), Some((Rule::Operator, 1)));
    assert_eq!(vocabulary.select_rule(&chars("// x"), 0), Some((Rule::Comment, 4)));
    assert_eq!(vocabulary.select_rule(&chars("/ x"), 0), Some((Rule::Operator, 1)));
    assert_eq!(vocabulary.select_rule(&chars("  x"), 0), Some((Rule::Whitespace, 2)));
    assert_eq!(vocabulary.select_rule(&chars("(x)"), 0), Some((Rule::Punctuation, 1)));
    assert_eq!(vocabulary.select_rule(&chars("@"), 0), None);
    assert_eq!(vocabulary.select_rule(&chars("\"open"), 0), None);
    assert_eq!(vocabulary.select_rule(&chars("x"), 1), None);
}

#[test]
fn multi_character_operators_are_not_split() {
    assert_eq!(
        kinds("a == b != c ** d -> e"),
        vec![
            TokenKind::Identifier("a".to_string()),
            TokenKind::Operator(Operators::Eq),
            TokenKind::Identifier("b".to_string()),
            TokenKind::Operator(Operators::Ne),
            TokenKind::Identifier("c".to_string()),
            TokenKind::Operator(Operators::Power),
            TokenKind::Identifier("d".to_string()),
            TokenKind::Operator(Operators::Return),
            TokenKind::Identifier("e".to_string()),
        ]
    );
    assert_eq!(
        kinds("= * - ==="),
        vec![
            TokenKind::Operator(Operators::Assign),
            TokenKind::Operator(Operators::Asterisk),
            TokenKind::Operator(Operators::Subtract),
            TokenKind::Operator(Operators::Eq),
            TokenKind::Operator(Operators::Assign),
        ]
    );
}

#[test]
fn every_operator_and_punctuation_mark() {
    assert_eq!(
        kinds("+ - * / ( ) { } [ ] ;"),
        vec![
            TokenKind::Operator(Operators::Add),
            TokenKind::Operator(Operators::Subtract),
            TokenKind::Operator(Operators::Asterisk),
            TokenKind::Operator(Operators::Divide),
            TokenKind::Operator(Operators::OpenParen),
            TokenKind::Operator(Operators::CloseParen),
            TokenKind::Operator(Operators::OpenBracket),
            TokenKind::Operator(Operators::CloseBracket),
            TokenKind::Operator(Operators::OpenBrace),
            TokenKind::Operator(Operators::CloseBrace),
            TokenKind::Operator(Operators::EndLine),
        ]
    );
}

#[test]
fn every_keyword_spelling() {
    assert_eq!(
        kinds("let mut func if else while public private interface null nullptr return"),
        vec![
            TokenKind::Keyword(Keywords::Define),
            TokenKind::Keyword(Keywords::Mutable),
            TokenKind::Keyword(Keywords::Function),
            TokenKind::Keyword(Keywords::If),
            TokenKind::Keyword(Keywords::Else),
            TokenKind::Keyword(Keywords::While),
            TokenKind::Keyword(Keywords::Publicity),
            TokenKind::Keyword(Keywords::Publicity),
            TokenKind::Keyword(Keywords::Publicity),
            TokenKind::Keyword(Keywords::Null),
            TokenKind::Keyword(Keywords::Null),
            TokenKind::Keyword(Keywords::Return),
        ]
    );
}

#[test]
fn keywords_are_exact_matches_only() {
    assert_eq!(
        kinds("letter nullptrs iffy returned"),
        vec![
            TokenKind::Identifier("letter".to_string()),
            TokenKind::Identifier("nullptrs".to_string()),
            TokenKind::Identifier("iffy".to_string()),
            TokenKind::Identifier("returned".to_string()),
        ]
    );
}

#[test]
fn keywords_are_matched_with_their_case() {
    let expected = Mistake {
        written: "Let".to_string(),
        potential: "let".to_string(),
        other_potentials: vec![],
    };
    assert_eq!(tokenize(b"Let x = 1;"), Err(ParsingError::InvalidKeyword(expected)));
    assert_eq!(kinds("WHILE"), vec![TokenKind::Identifier("WHILE".to_string())]);
}

#[test]
fn vocabulary_lookup_goes_by_rule_and_spelling() {
    let vocabulary = Vocabulary::new();
    assert_eq!(
        vocabulary.find_word(Rule::Keyword, &chars("func")),
        Some(Word::Keyword(Keywords::Function))
    );
    assert_eq!(
        vocabulary.find_word(Rule::Operator, &chars("->")),
        Some(Word::Operator(Operators::Return))
    );
    assert_eq!(
        vocabulary.find_word(Rule::Punctuation, &chars("{")),
        Some(Word::Operator(Operators::OpenBracket))
    );
    assert_eq!(vocabulary.find_word(Rule::Operator, &chars("{")), None);
    assert_eq!(vocabulary.find_word(Rule::Keyword, &chars("fun")), None);
    assert_eq!(vocabulary.match_word(Rule::Keyword, &chars("nullptr"), 0), 7);
    assert_eq!(vocabulary.match_word(Rule::Keyword, &chars("nullp"), 0), 4);
    assert_eq!(vocabulary.match_word(Rule::Operator, &chars("nullp"), 0), 0);
    assert_eq!(vocabulary.entries.len(), 28);
}

#[test]
fn numbers_are_read_in_decimal() {
    assert_eq!(parse_number(&chars("0")), Ok(Some(0)));
    assert_eq!(parse_number(&chars("007")), Ok(Some(7)));
    assert_eq!(parse_number(&chars("1234567890")), Ok(Some(1234567890)));
    assert_eq!(parse_number(&chars("9223372036854775807")), Ok(Some(i64::MAX)));
    assert_eq!(parse_number(&chars("9223372036854775808")), Err(()));
    assert_eq!(parse_number(&chars("99999999999999999999999")), Err(()));
    assert_eq!(parse_number(&chars("")), Ok(None));
    assert_eq!(parse_number(&chars("12a")), Ok(None));
    assert_eq!(kinds("42 0 9223372036854775807"), vec![
        TokenKind::Number(42),
        TokenKind::Number(0),
        TokenKind::Number(i64::MAX),
    ]);
}

#[test]
fn number_that_does_not_fit_is_an_overflow() {
    assert_eq!(
        tokenize(b"x = 9223372036854775808;"),
        Err(ParsingError::NumericOverflow("9223372036854775808".to_string()))
    );
}

#[test]
fn number_followed_by_letters_is_two_tokens() {
    assert_eq!(
        kinds("123abc"),
        vec![TokenKind::Number(123), TokenKind::Identifier("abc".to_string())]
    );
}

#[test]
fn escapes_are_resolved() {
    let body = chars("a\\nb\\tc\\\\d\\\"e\\rf\\0g\\qh");
    assert_eq!(resolve_escapes(&body, 0, body.len()), "a\nb\tc\\d\"e\rf\0gqh");
    let lone = chars("ab\\");
    assert_eq!(resolve_escapes(&lone, 0, lone.len()), "ab\\");
    assert_eq!(resolve_escapes(&lone, 1, 1), "");
}

#[test]
fn string_literal_keeps_its_text_and_resolves_its_contents() {
    let tokens = tokenize(b"s = \"a\\\"b\\n\";").unwrap();
    assert_eq!(tokens[2].kind, TokenKind::String("a\"b\n".to_string()));
    assert_eq!(tokens[2].text, "\"a\\\"b\\n\"");
    assert_eq!(kinds("\"\""), vec![TokenKind::String(String::new())]);
    assert_eq!(kinds("\"let // x\""), vec![TokenKind::String("let // x".to_string())]);
    assert_eq!(kinds("\"é ü\""), vec![TokenKind::String("é ü".to_string())]);
}

#[test]
fn string_literal_left_open_is_reported() {
    assert_eq!(
        tokenize(b"s = \"abc;\nx"),
        Err(ParsingError::UnterminatedString("\"abc;\nx".to_string()))
    );
    assert_eq!(
        tokenize(b"\"abc\\\""),
        Err(ParsingError::UnterminatedString("\"abc\\\"".to_string()))
    );
}

#[test]
fn classify_makes_the_kind_of_a_lexeme() {
    let vocabulary = Vocabulary::new();
    assert_eq!(vocabulary.classify(Rule::Whitespace, &chars("  ")), Ok(TokenKind::Ignore));
    assert_eq!(vocabulary.classify(Rule::Comment, &chars("// x")), Ok(TokenKind::Ignore));
    assert_eq!(
        vocabulary.classify(Rule::Keyword, &chars("while")),
        Ok(TokenKind::Keyword(Keywords::While))
    );
    assert_eq!(
        vocabulary.classify(Rule::Identifier, &chars("while_")),
        Ok(TokenKind::Identifier("while_".to_string()))
    );
    assert_eq!(vocabulary.classify(Rule::Number, &chars("15")), Ok(TokenKind::Number(15)));
    assert_eq!(
        vocabulary.classify(Rule::Number, &chars("92233720368547758070")),
        Err(ParsingError::NumericOverflow("92233720368547758070".to_string()))
    );
    assert_eq!(
        vocabulary.classify(Rule::StringLiteral, &chars("\"a\\tb\"")),
        Ok(TokenKind::String("a\tb".to_string()))
    );
    assert_eq!(
        vocabulary.classify(Rule::Operator, &chars("**")),
        Ok(TokenKind::Operator(Operators::Power))
    );
    assert_eq!(
        vocabulary.classify(Rule::Punctuation, &chars(";")),
        Ok(TokenKind::Operator(Operators::EndLine))
    );
}

#[test]
fn classify_calls_misfits_unknown() {
    let vocabulary = Vocabulary::new();
    assert_eq!(vocabulary.classify(Rule::Keyword, &chars("whale")), Ok(TokenKind::Unknown));
    assert_eq!(vocabulary.classify(Rule::Number, &chars("1x")), Ok(TokenKind::Unknown));
    assert_eq!(vocabulary.classify(Rule::Operator, &chars(";")), Ok(TokenKind::Unknown));
    assert_eq!(
        vocabulary.classify(Rule::StringLiteral, &chars("\"")),
        Ok(TokenKind::String(String::new()))
    );
}

#[test]
fn positions_count_lines_and_columns_from_one() {
    let tokens = tokenize("let a = 1;\n  // note\n\tb = \"é\" + a;\n".as_bytes()).unwrap();
    let places: Vec<(&str, usize, usize)> = tokens
        .iter()
        .map(|t| (t.text.as_str(), t.position.line, t.position.column))
        .collect();
    assert_eq!(
        places,
        vec![
            ("let", 1, 1),
            ("a", 1, 5),
            ("=", 1, 7),
            ("1", 1, 9),
            (";", 1, 10),
            ("b", 3, 2),
            ("=", 3, 4),
            ("\"é\"", 3, 6),
            ("+", 3, 10),
            ("a", 3, 12),
            (";", 3, 13),
        ]
    );
}

#[test]
fn position_advances_over_a_range() {
    let source = chars("ab\ncd\n\nx");
    let start = Position::start();
    assert_eq!(start, Position { line: 1, column: 1 });
    assert_eq!(start.advance(&source, 0, 0), Position { line: 1, column: 1 });
    assert_eq!(start.advance(&source, 0, 2), Position { line: 1, column: 3 });
    assert_eq!(start.advance(&source, 0, 3), Position { line: 2, column: 1 });
    let third = start.advance(&source, 0, 4);
    assert_eq!(third, Position { line: 2, column: 2 });
    assert_eq!(third.advance(&source, 4, 7), Position { line: 4, column: 1 });
    assert_eq!(Position::default(), Position { line: 1, column: 1 });
}

#[test]
fn next_lexeme_hands_out_token_and_next_offset() {
    let vocabulary = Vocabulary::new();
    let source = chars("let  x");
    let first = vocabulary.next_lexeme(&source, 0, Position::start());
    assert_eq!(
        first.token,
        Token {
            kind: TokenKind::Keyword(Keywords::Define),
            text: "let".to_string(),
            position: Position { line: 1, column: 1 },
        }
    );
    assert_eq!(first.problem, None);
    assert_eq!(first.next, 3);
    let gap = vocabulary.next_lexeme(&source, 3, Position { line: 1, column: 4 });
    assert_eq!(gap.token.kind, TokenKind::Ignore);
    assert_eq!(gap.token.text, "  ");
    assert_eq!(gap.next, 5);
    let bad = vocabulary.next_lexeme(&chars("$x y"), 0, Position::start());
    assert_eq!(bad.token.kind, TokenKind::Unknown);
    assert_eq!(bad.token.text, "$x");
    assert_eq!(bad.problem, Some(ParsingError::UnknownToken("$x".to_string())));
    assert_eq!(bad.next, 2);
}

#[test]
fn texts_are_exact_slices_of_the_source() {
    assert_eq!(texts("func add(a b)"), vec!["func", "add", "(", "a", "b", ")"]);
    assert_eq!(texts("x**2 //sq\n-y"), vec!["x", "**", "2", "-", "y"]);
    assert_eq!(
        tokenize(b"func add(a,b)"),
        Err(ParsingError::UnknownToken(",b)".to_string()))
    );
}

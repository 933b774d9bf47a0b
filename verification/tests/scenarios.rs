use lexer::{tokenize, Keywords, Mistake, Operators, ParsingError, Position, Token, TokenKind};

fn kinds(source: &str) -> Vec<TokenKind> {
    tokenize(source.as_bytes()).unwrap().into_iter().map(|t| t.kind).collect()
}

#[test]
fn definition_statement() {
    assert_eq!(
        kinds("let x = 5;"),
        vec![
            TokenKind::Keyword(Keywords::Define),
            TokenKind::Identifier("x".to_string()),
            TokenKind::Operator(Operators::Assign),
            TokenKind::Number(5),
            TokenKind::Operator(Operators::EndLine),
        ]
    );
}

#[test]
fn definition_statement_texts_and_positions() {
    let tokens = tokenize(b"let x = 5;").unwrap();
    let texts: Vec<&str> = tokens.iter().map(|t| t.text.as_str()).collect();
    assert_eq!(texts, vec!["let", "x", "=", "5", ";"]);
    let places: Vec<(usize, usize)> =
        tokens.iter().map(|t| (t.position.line, t.position.column)).collect();
    assert_eq!(places, vec![(1, 1), (1, 5), (1, 7), (1, 9), (1, 10)]);
}

#[test]
fn power_is_one_operator() {
    assert_eq!(
        kinds("x ** 2"),
        vec![
            TokenKind::Identifier("x".to_string()),
            TokenKind::Operator(Operators::Power),
            TokenKind::Number(2),
        ]
    );
}

#[test]
fn keyword_with_a_letter_more_is_an_identifier() {
    assert_eq!(
        kinds("lett = 1;"),
        vec![
            TokenKind::Identifier("lett".to_string()),
            TokenKind::Operator(Operators::Assign),
            TokenKind::Number(1),
            TokenKind::Operator(Operators::EndLine),
        ]
    );
}

#[test]
fn near_miss_keyword_is_reported() {
    let expected = Mistake {
        written: "fnc".to_string(),
        potential: "func".to_string(),
        other_potentials: vec![],
    };
    assert_eq!(tokenize(b"fnc add() {}"), Err(ParsingError::InvalidKeyword(expected)));
}

#[test]
fn empty_buffer_is_an_empty_file() {
    assert_eq!(tokenize(b""), Err(ParsingError::EmptyFile));
}

#[test]
fn comment_alone_gives_no_token() {
    assert_eq!(tokenize(b"// nothing here"), Ok(vec![]));
}

#[test]
fn fresh_token() {
    let token = Token::new();
    assert_eq!(token.kind, TokenKind::Ignore);
    assert_eq!(token.text, "");
    assert_eq!(token.position, Position { line: 1, column: 1 });
}

#[test]
fn parse_source_tokenizes_the_buffer() {
    let tokens = Token::new().parse_source(b"if x == 1 { y = 2; }").unwrap();
    let kinds: Vec<TokenKind> = tokens.into_iter().map(|t| t.kind).collect();
    assert_eq!(
        kinds,
        vec![
            TokenKind::Keyword(Keywords::If),
            TokenKind::Identifier("x".to_string()),
            TokenKind::Operator(Operators::Eq),
            TokenKind::Number(1),
            TokenKind::Operator(Operators::OpenBracket),
            TokenKind::Identifier("y".to_string()),
            TokenKind::Operator(Operators::Assign),
            TokenKind::Number(2),
            TokenKind::Operator(Operators::EndLine),
            TokenKind::Operator(Operators::CloseBracket),
        ]
    );
}

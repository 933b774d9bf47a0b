use lexer::error::{decimal_string, digit_of};
use lexer::{tokenize, tokenize_lenient, Diagnostic, Mistake, ParsingError, Position};

fn mistake(written: &str, potential: &str, others: &[&str]) -> Mistake {
    Mistake {
        written: written.to_string(),
        potential: potential.to_string(),
        other_potentials: others.iter().map(|s| s.to_string()).collect(),
    }
}

#[test]
fn decimal_rendering() {
    assert_eq!(decimal_string(0), "0");
    assert_eq!(decimal_string(7), "7");
    assert_eq!(decimal_string(10), "10");
    assert_eq!(decimal_string(1203), "1203");
    assert_eq!(decimal_string(usize::MAX), usize::MAX.to_string());
    assert_eq!(digit_of(0), '0');
    assert_eq!(digit_of(9), '9');
}

#[test]
fn message_of_a_mistake_without_alternatives() {
    let error = ParsingError::InvalidKeyword(mistake("fnc", "func", &[]));
    assert_eq!(
        error.message(),
        "Invalid Keyword: expected func, found fnc\nSimilar Valid Operators: \n"
    );
    let other = ParsingError::InvalidOperator(mistake("=>", "=", &[]));
    assert_eq!(
        other.message(),
        "Invalid Operator: expected =, found =>\nSimilar Valid Operators: \n"
    );
}

#[test]
fn message_of_a_mistake_lists_the_alternatives() {
    let error = ParsingError::InvalidOperator(mistake(">=", "!=", &["=", "=="]));
    assert_eq!(
        error.message(),
        "Invalid Operator: expected !=, found >=\nSimilar Valid Operators: \n    =\n    ==\n"
    );
    let one = ParsingError::InvalidKeyword(mistake("mets", "let", &["mut"]));
    assert_eq!(
        one.message(),
        "Invalid Keyword: expected let, found mets\nSimilar Valid Operators: \n    mut\n"
    );
    assert_eq!(
        mistake("a", "b", &["c", "d", "e"]).message("Word"),
        "Invalid Word: expected b, found a\nSimilar Valid Operators: \n    c\n    d\n    e\n"
    );
}

#[test]
fn first_line_of_a_mistake_ends_after_what_was_written() {
    let operator = ParsingError::InvalidOperator(mistake(">=", "!=", &["=", "=="])).message();
    assert!(operator.starts_with("Invalid Operator: expected !=, found >=\n"));
    assert!(!operator.starts_with("Invalid Keyword"));
    let keyword = ParsingError::InvalidKeyword(mistake("fnc", "func", &[])).message();
    assert!(keyword.starts_with("Invalid Keyword: expected func, found fnc\n"));
    assert!(!keyword.starts_with("Invalid Operator"));
}

#[test]
fn every_message_ends_with_a_line_feed() {
    let errors = vec![
        ParsingError::InvalidOperator(mistake(">=", "!=", &["="])),
        ParsingError::InvalidKeyword(mistake("fnc", "func", &[])),
        ParsingError::IoError,
        ParsingError::EmptyFile,
        ParsingError::DecodeError,
        ParsingError::UnknownToken("@".to_string()),
        ParsingError::NumericOverflow("99999999999999999999".to_string()),
        ParsingError::UnterminatedString("\"abc".to_string()),
    ];
    for error in errors {
        assert!(error.message().ends_with('\n'));
    }
}

#[test]
fn message_of_each_other_error() {
    assert_eq!(ParsingError::IoError.message(), "The file could not be read\n");
    assert_eq!(
        ParsingError::EmptyFile.message(),
        "The file is currently empty, please add code\n"
    );
    assert_eq!(ParsingError::DecodeError.message(), "Invalid Source Code; Not UTF-8 Valid\n");
    assert_eq!(ParsingError::UnknownToken("@".to_string()).message(), "Unknown token: @\n");
    assert_eq!(
        ParsingError::NumericOverflow("99999999999999999999".to_string()).message(),
        "Number out of range: 99999999999999999999\n"
    );
    assert_eq!(
        ParsingError::UnterminatedString("\"abc\nd".to_string()).message(),
        "Unterminated string literal\n"
    );
}

#[test]
fn message_of_a_diagnostic_starts_with_the_place() {
    let diagnostic = Diagnostic {
        error: ParsingError::UnknownToken("@".to_string()),
        position: Position { line: 12, column: 5 },
    };
    assert_eq!(diagnostic.message(), "line 12, column 5: Unknown token: @\n");
}

#[test]
fn messages_of_a_lenient_scan() {
    let scan = tokenize_lenient(b"let x = 1;\nfnc y @\n\"open").unwrap();
    let messages: Vec<String> = scan.diagnostics.iter().map(|d| d.message()).collect();
    assert_eq!(
        messages,
        vec![
            "line 2, column 1: Invalid Keyword: expected func, found fnc\nSimilar Valid Operators: \n",
            "line 2, column 7: Unknown token: @\n",
            "line 3, column 1: Unterminated string literal\n",
        ]
    );
}

#[test]
fn message_of_the_first_problem() {
    let error = tokenize(b"fnc add() {}").unwrap_err();
    assert_eq!(
        error.message(),
        "Invalid Keyword: expected func, found fnc\nSimilar Valid Operators: \n"
    );
}

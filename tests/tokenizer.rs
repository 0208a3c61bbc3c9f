use risp::{tokenize, Token};

#[test]
fn test_parsing_symbols() {
    assert_eq!(
        tokenize("()"),
        vec![Token::OpeningParenthesis, Token::ClosingParenthesis,]
    )
}

#[test]
fn test_parsing_parameter_list() {
    assert_eq!(
        tokenize("defn [a b c]"),
        vec![
            Token::DefnKeyword,
            Token::OpeningBracket,
            Token::Name("a".to_string()),
            Token::Name("b".to_string()),
            Token::Name("c".to_string()),
            Token::ClosingBracket,
        ]
    )
}

#[test]
fn test_parsing_numbers() {
    assert_eq!(
        tokenize("123 2"),
        vec![Token::Number(123), Token::Number(2),]
    )
}

#[test]
fn test_parsing_names() {
    assert_eq!(
        tokenize("name my-var hello-there!"),
        vec![
            Token::Name("name".to_string()),
            Token::Name("my-var".to_string()),
            Token::Name("hello-there!".to_string()),
        ]
    )
}

#[test]
fn test_parsing_names_with_special_characters() {
    assert_eq!(
        tokenize("name)"),
        vec![Token::Name("name".to_string()), Token::ClosingParenthesis]
    )
}

#[test]
fn test_parsing_strings() {
    assert_eq!(tokenize(r#""""#), vec![Token::String("".to_string())]);

    assert_eq!(
        tokenize(r#""this is my string""#),
        vec![Token::String("this is my string".to_string())]
    )
}

#[test]
fn test_parsing_numbers_with_special_characters() {
    assert_eq!(
        tokenize("123)"),
        vec![Token::Number(123), Token::ClosingParenthesis]
    )
}

#[test]
fn test_true_false_literals() {
    assert_eq!(
        tokenize("true false"),
        vec![Token::Boolean(true), Token::Boolean(false)]
    )
}

#[test]
fn test_ignore_whitespace() {
    assert_eq!(tokenize("               "), vec![],)
}

#[test]
fn tokenizes_a_negative_number_as_two_tokens() {
    assert_eq!(
        tokenize("-42"),
        vec![Token::NegativeSymbol, Token::Number(42)]
    )
}

#[test]
fn drops_a_number_that_does_not_fit() {
    assert_eq!(tokenize("99999999999999999999 7"), vec![Token::Number(7)]);
    assert_eq!(
        tokenize("9223372036854775807"),
        vec![Token::Number(9223372036854775807)]
    );
    assert_eq!(tokenize("9223372036854775808"), vec![]);
}

#[test]
fn drops_a_run_of_non_ascii_digits() {
    assert_eq!(tokenize("\u{0663}\u{0664} 5"), vec![Token::Number(5)]);
}

#[test]
fn unterminated_string_runs_to_the_end() {
    assert_eq!(
        tokenize("\"abc def"),
        vec![Token::String("abc def".to_string())]
    );
}

#[test]
fn whitespace_of_every_kind_separates_tokens() {
    assert_eq!(
        tokenize("a\tb\nc\u{00A0}d"),
        vec![
            Token::Name("a".to_string()),
            Token::Name("b".to_string()),
            Token::Name("c".to_string()),
            Token::Name("d".to_string()),
        ]
    );
}

#[test]
fn keywords_and_brackets() {
    assert_eq!(
        tokenize("(if [x] 1)"),
        vec![
            Token::OpeningParenthesis,
            Token::IfKeyword,
            Token::OpeningBracket,
            Token::Name("x".to_string()),
            Token::ClosingBracket,
            Token::Number(1),
            Token::ClosingParenthesis,
        ]
    );
    assert_eq!(tokenize("list"), vec![Token::Name("list".to_string())]);
}

#[test]
fn digits_stop_at_a_letter() {
    assert_eq!(
        tokenize("12ab"),
        vec![Token::Number(12), Token::Name("ab".to_string())]
    );
}

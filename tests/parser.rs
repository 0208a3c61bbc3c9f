use risp::{parse, parse_node, tokenize, ASTNode, Error, ErrorType, Token, TokenStream};

#[test]
fn test_parsing_negative_number_literals() {
    let mut tokens = TokenStream::new(vec![Token::NegativeSymbol, Token::Number(123)]);

    assert_eq!(parse_node(&mut tokens), Ok(ASTNode::NumberLiteral(-123)));
    assert_eq!(tokens.peek(), None, "Has left-over tokens");
}

#[test]
fn test_parsing_number_literal() {
    let mut tokens = TokenStream::new(vec![Token::Number(123)]);

    assert_eq!(parse_node(&mut tokens), Ok(ASTNode::NumberLiteral(123)));
    assert_eq!(tokens.peek(), None, "Has left-over tokens");
}

#[test]
fn test_parsing_identifier() {
    let mut tokens = TokenStream::new(vec![Token::Name("hello-there".to_string())]);

    assert_eq!(
        parse_node(&mut tokens),
        Ok(ASTNode::Identifier("hello-there".to_string()))
    );
    assert_eq!(tokens.peek(), None, "Has left-over tokens");
}

#[test]
fn test_parsing_call_expression() {
    let mut tokens = TokenStream::new(vec![
        Token::OpeningParenthesis,
        Token::Name("hello-there".to_string()),
        Token::Number(123),
        Token::ClosingParenthesis,
    ]);

    assert_eq!(
        parse_node(&mut tokens),
        Ok(ASTNode::CallExpression(
            "hello-there".to_string(),
            vec![ASTNode::NumberLiteral(123)]
        ))
    );
    assert_eq!(tokens.peek(), None, "Has left-over tokens");
}

#[test]
fn test_parsing_true_literals() {
    let mut tokens = TokenStream::new(vec![Token::Boolean(true)]);
    assert_eq!(parse_node(&mut tokens), Ok(ASTNode::BooleanLiteral(true)));
    assert_eq!(tokens.peek(), None, "Has left-over tokens");
}

#[test]
fn test_parsing_false_literals() {
    let mut tokens = TokenStream::new(vec![Token::Boolean(false)]);
    assert_eq!(parse_node(&mut tokens), Ok(ASTNode::BooleanLiteral(false)));
    assert_eq!(tokens.peek(), None, "Has left-over tokens");
}

#[test]
fn test_parsing_function_declaration() {
    let mut tokens = TokenStream::new(vec![
        Token::OpeningParenthesis,
        Token::DefnKeyword,
        Token::Name("hello-there".to_string()),
        Token::OpeningBracket,
        Token::Name("a".to_string()),
        Token::ClosingBracket,
        Token::Number(123),
        Token::ClosingParenthesis,
    ]);

    assert_eq!(
        parse_node(&mut tokens),
        Ok(ASTNode::FunctionDeclaration {
            identifier: "hello-there".to_string(),
            parameter_list: vec!["a".to_string()],
            body: Box::new(ASTNode::NumberLiteral(123)),
        })
    );
    assert_eq!(tokens.peek(), None, "Has left-over tokens");
}

#[test]
fn test_parsing_list_expression() {
    let mut tokens = TokenStream::new(vec![
        Token::OpeningParenthesis,
        Token::ListKeyword,
        Token::String("a".to_string()),
        Token::Number(123),
        Token::ClosingParenthesis,
    ]);

    assert_eq!(
        parse_node(&mut tokens),
        Ok(ASTNode::ListExpression(vec![
            ASTNode::StringLiteral("a".to_string()),
            ASTNode::NumberLiteral(123),
        ]))
    );
    assert_eq!(tokens.peek(), None, "Has left-over tokens");
}

#[test]
fn test_parsing_if_else_expression() {
    let mut tokens = TokenStream::new(vec![
        Token::OpeningParenthesis,
        Token::IfKeyword,
        Token::Boolean(true),
        Token::Number(321),
        Token::Number(123),
        Token::ClosingParenthesis,
    ]);

    assert_eq!(
        parse_node(&mut tokens),
        Ok(ASTNode::IfExpression {
            expression: Box::new(ASTNode::BooleanLiteral(true)),
            when_true: Box::new(ASTNode::NumberLiteral(321)),
            when_false: Box::new(ASTNode::NumberLiteral(123)),
        })
    );
    assert_eq!(tokens.peek(), None, "Has left-over tokens");
}

#[test]
fn test_parsing_multiple_expressions() {
    let mut tokens =
        TokenStream::new(vec![Token::Boolean(true), Token::Number(321), Token::Number(123)]);

    assert_eq!(
        parse(&mut tokens),
        Ok(vec![
            ASTNode::BooleanLiteral(true),
            ASTNode::NumberLiteral(321),
            ASTNode::NumberLiteral(123),
        ])
    );
    assert_eq!(tokens.peek(), None, "Has left-over tokens");
}

fn parse_text(text: &str) -> Result<ASTNode, Error> {
    let mut tokens = TokenStream::new(tokenize(text));
    parse_node(&mut tokens)
}

#[test]
fn unterminated_call_is_missing_a_token() {
    assert_eq!(
        parse_text("(add 1 2"),
        Err(Error::new("", ErrorType::MissingToken))
    );
}

#[test]
fn call_of_a_number_is_an_unexpected_token() {
    assert_eq!(
        parse_text("(1 2)"),
        Err(Error::new("", ErrorType::UnexpectedToken(Token::Number(1))))
    );
}

#[test]
fn list_word_starts_a_list_expression() {
    assert_eq!(
        parse_text("(list 1 2 3)"),
        Ok(ASTNode::ListExpression(vec![
            ASTNode::NumberLiteral(1),
            ASTNode::NumberLiteral(2),
            ASTNode::NumberLiteral(3),
        ]))
    );
}

#[test]
fn minus_before_a_non_number_is_unexpected() {
    assert_eq!(
        parse_text("-abc"),
        Err(Error::new("", ErrorType::UnexpectedToken(Token::NegativeSymbol)))
    );
}

#[test]
fn input_ending_after_minus_or_defn_is_missing_a_token() {
    assert_eq!(parse_text("-"), Err(Error::new("", ErrorType::MissingToken)));
    assert_eq!(parse_text("(defn"), Err(Error::new("", ErrorType::MissingToken)));
}

#[test]
fn double_minus_negates_twice() {
    assert_eq!(parse_text("- - 5"), Ok(ASTNode::NumberLiteral(5)));
}

#[test]
fn empty_input_is_missing_a_token() {
    assert_eq!(parse_text(""), Err(Error::new("", ErrorType::MissingToken)));
    assert_eq!(parse_text("("), Err(Error::new("", ErrorType::MissingToken)));
}

#[test]
fn stray_closing_parenthesis_is_unexpected() {
    assert_eq!(
        parse_text(")"),
        Err(Error::new("", ErrorType::UnexpectedToken(Token::ClosingParenthesis)))
    );
}

#[test]
fn declaration_errors() {
    assert_eq!(
        parse_text("(defn 1 [a] a)"),
        Err(Error::new("", ErrorType::UnexpectedToken(Token::DefnKeyword)))
    );
    assert_eq!(
        parse_text("(defn f a)"),
        Err(Error::new("", ErrorType::UnexpectedToken(Token::Name("a".to_string()))))
    );
    assert_eq!(
        parse_text("(defn f [a 1] a)"),
        Err(Error::new("", ErrorType::UnexpectedToken(Token::Number(1))))
    );
    assert_eq!(
        parse_text("(defn f [a] a 2)"),
        Err(Error::new("", ErrorType::UnexpectedToken(Token::Number(2))))
    );
    assert_eq!(
        parse_text("(defn f [a"),
        Err(Error::new("", ErrorType::MissingToken))
    );
}

#[test]
fn if_needs_its_closing_parenthesis() {
    assert_eq!(
        parse_text("(if true 1 2 3)"),
        Err(Error::new("", ErrorType::UnexpectedToken(Token::Number(3))))
    );
    assert_eq!(parse_text("(if true 1"), Err(Error::new("", ErrorType::MissingToken)));
}

#[test]
fn parse_stops_at_the_first_error() {
    let mut tokens = TokenStream::new(tokenize("1 ) 2"));
    assert_eq!(
        parse(&mut tokens),
        Err(Error::new("", ErrorType::UnexpectedToken(Token::ClosingParenthesis)))
    );
}

#[test]
fn stream_len_counts_what_is_left() {
    let mut tokens = TokenStream::new(tokenize("1 2 3"));
    assert_eq!(tokens.len(), 3);
    assert_eq!(parse_node(&mut tokens), Ok(ASTNode::NumberLiteral(1)));
    assert_eq!(tokens.len(), 2);
    assert_eq!(tokens.next(), Some(Token::Number(2)));
    assert_eq!(tokens.peek(), Some(&Token::Number(3)));
}

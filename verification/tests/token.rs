use estel::errors::LexError;
use estel::token::{Keyword, Operator, TokenType, Unary};
use estel::value::Literal;

#[test]
fn parse_number() {
    assert_eq!(TokenType::Literal(Literal::Number(17)), TokenType::new_number_literal("17"));
}

#[test]
fn token_parse_number() {
    assert_eq!(TokenType::Literal(Literal::Number(17)), TokenType::new_number_literal("17"));
}

#[test]
fn number_literal_that_is_no_number_is_an_error_token() {
    assert_eq!(TokenType::Error(LexError::InvalidTokenError), TokenType::new_number_literal(""));
    assert_eq!(TokenType::Error(LexError::InvalidTokenError), TokenType::new_number_literal("1x"));
    assert_eq!(TokenType::Error(LexError::InvalidTokenError), TokenType::new_number_literal("-1"));
    assert_eq!(
        TokenType::Error(LexError::InvalidTokenError),
        TokenType::new_number_literal("4294967296")
    );
    assert_eq!(TokenType::Literal(Literal::Number(7)), TokenType::new_number_literal("007"));
}

#[test]
fn float_literal_that_is_no_number_is_an_error_token() {
    for text in ["1.5", "25.08", "7.", ".5", "000.000"] {
        assert_eq!(TokenType::Decimal(text.to_string()), TokenType::new_float_literal(text));
    }
    for text in ["", ".", "15", "1.2.3", "1,5", "-1.5", "1.5e3", "abc", "1. 5"] {
        assert_eq!(
            TokenType::Error(LexError::InvalidTokenError),
            TokenType::new_float_literal(text)
        );
    }
}

#[test]
fn operators_from_their_spelling() {
    let spelled = [
        ("+", Operator::Add),
        ("-", Operator::Sub),
        ("*", Operator::Mul),
        ("/", Operator::Div),
        ("%", Operator::Mod),
        (">", Operator::Greater),
        ("<", Operator::Less),
        (">=", Operator::GreaterEqual),
        ("<=", Operator::LessEqual),
        ("==", Operator::Equal),
        ("!=", Operator::NotEqual),
        ("or", Operator::Or),
        ("and", Operator::And),
    ];
    for (text, op) in spelled {
        assert_eq!(TokenType::Operator(op), TokenType::new_operator(text));
        assert_eq!(Some(op), Operator::from_text(text));
    }
    assert_eq!(None, Operator::from_text("=>"));
}

#[test]
fn unary_operators_from_their_character() {
    assert_eq!(TokenType::Unary(Unary::Neg), TokenType::new_unary('-'));
    assert_eq!(TokenType::Unary(Unary::Not), TokenType::new_unary('!'));
}

#[test]
fn precedence_rises_from_or_to_the_multiplicative_operators() {
    assert_eq!(1, Operator::Or.precedence());
    assert_eq!(2, Operator::And.precedence());
    assert_eq!(3, Operator::Equal.precedence());
    assert_eq!(3, Operator::NotEqual.precedence());
    assert_eq!(4, Operator::Greater.precedence());
    assert_eq!(4, Operator::Less.precedence());
    assert_eq!(4, Operator::GreaterEqual.precedence());
    assert_eq!(4, Operator::LessEqual.precedence());
    assert_eq!(5, Operator::Add.precedence());
    assert_eq!(5, Operator::Sub.precedence());
    assert_eq!(6, Operator::Mul.precedence());
    assert_eq!(6, Operator::Div.precedence());
    assert_eq!(6, Operator::Mod.precedence());
}

#[test]
fn keywords_from_their_spelling() {
    assert_eq!(Some(Keyword::Print), Keyword::new_keyword("print"));
    assert_eq!(Some(Keyword::Let), Keyword::new_keyword("let"));
    assert_eq!(Some(Keyword::While), Keyword::new_keyword("while"));
    assert_eq!(None, Keyword::new_keyword("Print"));
    assert_eq!(None, Keyword::new_keyword(""));
}

#[test]
fn token_kinds_are_named_for_messages() {
    assert_eq!("a literal", TokenType::new_number_literal("1").to_string());
    assert_eq!("a literal", TokenType::new_float_literal("1.5").to_string());
    assert_eq!("an operator", TokenType::Operator(Operator::Add).to_string());
    assert_eq!("a unary operator", TokenType::Unary(Unary::Not).to_string());
    assert_eq!("error", TokenType::Error(LexError::InvalidTokenError).to_string());
    assert_eq!("a keyword", TokenType::Keyword(Keyword::Let).to_string());
    assert_eq!("an identifier", TokenType::Ident(String::new()).to_string());
    assert_eq!("(", TokenType::Lparen.to_string());
    assert_eq!(")", TokenType::Rparen.to_string());
    assert_eq!("{", TokenType::Lbrace.to_string());
    assert_eq!("}", TokenType::Rbrace.to_string());
    assert_eq!("=", TokenType::Assign.to_string());
    assert_eq!("the end of statement", TokenType::StmtEnd.to_string());
    assert_eq!("the end of file", TokenType::Eof.to_string());
}

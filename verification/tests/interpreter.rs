use estel::errors::{LexError, StmtError};
use estel::executor::{Action, Executor};
use estel::interpreter::{find_lexical_errors, load, Rejection};
use estel::lexer::Lexer;
use estel::scope::Scope;
use estel::token::{Token, TokenType};
use estel::value::Literal;

#[test]
fn error_tokens_are_gathered_in_order() {
    let tokens = Lexer::new("let a = 4$ + 1\nprint 'open").lex();
    assert_eq!(
        vec![
            Token { class: TokenType::Error(LexError::InvalidTokenError), start: 8, line: 1 },
            Token { class: TokenType::Error(LexError::UnterminatedStringError), start: 6, line: 2 },
        ],
        find_lexical_errors(&tokens)
    );
    assert_eq!(Vec::<Token>::new(), find_lexical_errors(&Lexer::new("let a = 4 + 1").lex()));
}

#[test]
fn source_with_a_lexical_error_is_not_parsed() {
    let mut executor = Executor::new(false, Scope::new());
    match load("let = 1 # 2", &mut executor) {
        Err(Rejection::Lexical(errors)) => {
            assert_eq!(1, errors.len());
            assert_eq!((1, 8), (errors[0].line, errors[0].start));
        }
        other => panic!("unexpected {:?}", other),
    }
    assert_eq!(Action::Done, executor.step());
}

#[test]
fn source_with_a_syntax_error_is_not_loaded() {
    let mut executor = Executor::new(false, Scope::new());
    match load("let a = 1; let = 2", &mut executor) {
        Err(Rejection::Syntax(errors)) => {
            assert_eq!(1, errors.errors.len());
            assert!(matches!(errors.errors[0], StmtError::ExpectToken(_, _)));
        }
        other => panic!("unexpected {:?}", other),
    }
    assert_eq!(Action::Done, executor.step());
    assert_eq!(None, executor.get_var(&"a".to_string()));
}

#[test]
fn well_formed_source_is_loaded_and_runs() {
    let mut executor = Executor::new(false, Scope::new());
    assert_eq!(Ok(()), load("let a = 1 + 2; print a * 2;", &mut executor));
    let mut printed = Vec::new();
    loop {
        match executor.step() {
            Action::Continue => {}
            Action::Print(text) => printed.push(text),
            Action::Done => break,
            other => panic!("unexpected {:?}", other),
        }
    }
    assert_eq!(vec!["6".to_string()], printed);
    assert_eq!(Some(Literal::Number(3)), executor.get_var(&"a".to_string()));
}

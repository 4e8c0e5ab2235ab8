//! The front end: from a source text to the program that it writes, loaded
//! into the machine, or to the errors that keep it from running.

use crate::errors::{StmtErrorView, StmtErrors};
use crate::executor::Executor;
use crate::grammar::parse_spec;
use crate::lexer::{lex_spec, Lexer};
use crate::parser::Parser;
use crate::stmt::StmtView;
use crate::token::{lemma_token_views_push, token_views, Token, TokenType, TokenView};
use vstd::prelude::*;

verus! {

/// Why a source text was not run.
#[derive(Debug, PartialEq)]
pub enum Rejection {
    /// The error tokens of the text, in order.
    Lexical(Vec<Token>),
    /// The errors of the parse, in order.
    Syntax(StmtErrors),
}

/// The error tokens among the tokens, in order.
pub open spec fn lexical_errors(tokens: Seq<TokenView>) -> Seq<TokenView> {
    tokens.filter(|token: TokenView| token.class is Error)
}

/// What loading a source text comes to: the program that it writes, or why
/// it is rejected. A text with an error token is not parsed.
pub open spec fn front_end(source: Seq<char>) -> Result<
    Seq<StmtView>,
    Result<Seq<TokenView>, Seq<StmtErrorView>>,
> {
    let tokens = lex_spec(source);
    if lexical_errors(tokens).len() > 0 {
        Err(Ok(lexical_errors(tokens)))
    } else {
        match parse_spec(tokens) {
            Ok(program) => Ok(program),
            Err(errors) => Err(Err(errors)),
        }
    }
}

/// Gathers the error tokens among the tokens, in order.
pub fn find_lexical_errors(tokens: &Vec<Token>) -> (errors: Vec<Token>)
    ensures
        token_views(errors@) == lexical_errors(token_views(tokens@)),
{
    let ghost all = token_views(tokens@);
    let ghost is_error = |token: TokenView| token.class is Error;
    let mut errors: Vec<Token> = Vec::new();
    let mut i: usize = 0;
    proof {
        reveal(Seq::filter);
        assert(all.take(0).filter(is_error) =~= Seq::empty());
        assert(token_views(errors@) =~= Seq::empty());
    }
    while i < tokens.len()
        invariant
            i <= tokens@.len(),
            all == token_views(tokens@),
            is_error == |token: TokenView| token.class is Error,
            token_views(errors@) == all.take(i as int).filter(is_error),
        decreases tokens@.len() - i,
    {
        proof {
            reveal(Seq::filter);
            assert(all.take(i + 1).drop_last() =~= all.take(i as int));
            assert(all.take(i + 1).last() == tokens@[i as int]@);
        }
        if matches!(tokens[i].class, TokenType::Error(_)) {
            let found = tokens[i].clone();
            proof {
                lemma_token_views_push(errors@, found);
            }
            errors.push(found);
        }
        i = i + 1;
    }
    assert(all.take(tokens@.len() as int) =~= all);
    errors
}

/// Reads a source text and loads the program that it writes into the
/// machine. A text with a lexical error is not parsed, and one with a
/// syntax error is not loaded: the machine then stays as it is.
pub fn load(source: &str, executor: &mut Executor) -> (r: Result<(), Rejection>)
    requires
        source@.len() < u32::MAX,
        old(executor).wf(),
    ensures
        final(executor).wf(),
        match r {
            Ok(()) => front_end(source@) is Ok && final(executor)@ == old(executor)@.loaded(
                front_end(source@)->Ok_0,
            ),
            Err(Rejection::Lexical(errors)) => front_end(source@) == Err::<
                Seq<StmtView>,
                Result<Seq<TokenView>, Seq<StmtErrorView>>,
            >(Ok(token_views(errors@))) && errors@.len() > 0 && final(executor)@ == old(
                executor,
            )@,
            Err(Rejection::Syntax(errors)) => front_end(source@) == Err::<
                Seq<StmtView>,
                Result<Seq<TokenView>, Seq<StmtErrorView>>,
            >(Err(errors@)) && errors@.len() > 0 && final(executor)@ == old(executor)@,
        },
{
    let tokens = Lexer::new(source).lex();
    let errors = find_lexical_errors(&tokens);
    if errors.len() > 0 {
        return Err(Rejection::Lexical(errors));
    }
    let mut parser = Parser::new(&tokens);
    match parser.parse() {
        Ok(program) => {
            executor.execute_code(program);
            Ok(())
        },
        Err(errors) => Err(Rejection::Syntax(errors)),
    }
}

} // verus!

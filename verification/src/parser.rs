//! The parser: tokens to statements.
//!
//! Expressions are parsed by operator precedence, with a stack of operands
//! and a stack of pending operators. An error in a statement does not stop
//! the parse: the parser goes on behind the statement and gathers the errors.

use crate::errors::{
    error_views, ExprError, ExprErrorView, StmtError, StmtErrorView, StmtErrors,
};
use crate::expr::{ExpectType, Expr, ExprView};
use crate::grammar::{
    block_spec, condition_end, ends_statement, expr_spec, expr_stmt_spec, ident_spec, items_spec,
    lemma_block_advances, lemma_condition_end_bounds, lemma_recovery_end_bounds,
    lemma_statement_end_bounds, let_spec, parse_from, print_spec, program_spec, recovery_end,
    statement_end, statement_spec, token_at, Gathered, Parsed, Yard,
};
use crate::stmt::{stmt_views, Block, Stmt, StmtView};
use crate::token::{
    lemma_token_views_push, token_views, Keyword, Token, TokenType, TokenTypeView, TokenView,
};
use vstd::prelude::*;

verus! {

/// The models of a run of expressions.
pub open spec fn expr_views(exprs: Seq<Expr>) -> Seq<ExprView> {
    Seq::new(exprs.len(), |i: int| exprs[i]@)
}

spec fn yard_of(operands: Seq<Expr>, operators: Seq<Token>, expect: ExpectType) -> Yard {
    Yard { operands: expr_views(operands), operators: token_views(operators), expect }
}

/// The model of what the expression parser returns.
pub open spec fn expr_result(r: Result<Option<Expr>, ExprError>) -> Result<
    Option<ExprView>,
    ExprErrorView,
> {
    match r {
        Ok(Some(expr)) => Ok(Some(expr@)),
        Ok(None) => Ok(None),
        Err(error) => Err(error@),
    }
}

/// The model of what the parser returns for one statement.
pub open spec fn stmt_result(r: Result<Stmt, StmtError>) -> Result<StmtView, StmtErrorView> {
    match r {
        Ok(stmt) => Ok(stmt@),
        Err(error) => Err(error@),
    }
}

spec fn checked_result(r: Result<Expr, StmtError>) -> Result<ExprView, StmtErrorView> {
    match r {
        Ok(expr) => Ok(expr@),
        Err(error) => Err(error@),
    }
}

spec fn parsed_of(r: Result<Option<Stmt>, StmtErrors>, pos: int) -> Parsed {
    Parsed {
        result: match r {
            Ok(Some(stmt)) => Ok(Some(stmt@)),
            Ok(None) => Ok(None),
            Err(errors) => Err(errors@),
        },
        pos,
    }
}

/// The model of what a parse returns.
pub open spec fn parse_result(r: Result<Block, StmtErrors>) -> Result<
    Seq<StmtView>,
    Seq<StmtErrorView>,
> {
    match r {
        Ok(block) => Ok(block@),
        Err(errors) => Err(errors@),
    }
}

proof fn lemma_expr_views_push(exprs: Seq<Expr>, expr: Expr)
    ensures
        expr_views(exprs.push(expr)) == expr_views(exprs).push(expr@),
{
    assert(expr_views(exprs.push(expr)) =~= expr_views(exprs).push(expr@));
}

proof fn lemma_stmt_views_push(stmts: Seq<Stmt>, stmt: Stmt)
    ensures
        stmt_views(stmts.push(stmt)) == stmt_views(stmts).push(stmt@),
{
    assert(stmt_views(stmts.push(stmt)) =~= stmt_views(stmts).push(stmt@));
}

proof fn lemma_error_views_push(errors: Seq<StmtError>, error: StmtError)
    ensures
        error_views(errors.push(error)) == error_views(errors).push(error@),
{
    assert(error_views(errors.push(error)) =~= error_views(errors).push(error@));
}

proof fn lemma_error_views_add(first: Seq<StmtError>, second: Seq<StmtError>)
    ensures
        error_views(first + second) == error_views(first) + error_views(second),
{
    assert(error_views(first + second) =~= error_views(first) + error_views(second));
}

/// Applies the latest pending operator to the latest operands.
fn reduce(operands: &mut Vec<Expr>, operators: &mut Vec<Token>, Ghost(expect): Ghost<ExpectType>)
    requires
        yard_of(old(operands)@, old(operators)@, expect).balanced(),
        expect == ExpectType::Operator,
        old(operators)@.len() > 0,
    ensures
        yard_of(final(operands)@, final(operators)@, expect) == yard_of(
            old(operands)@,
            old(operators)@,
            expect,
        ).reduced(),
        yard_of(final(operands)@, final(operators)@, expect).balanced(),
        final(operators)@.len() == old(operators)@.len() - 1,
{
    let ghost before = yard_of(operands@, operators@, expect);
    let ghost n = operands@.len() as int;
    let top = operators.pop().unwrap();
    assert(token_views(operators@) =~= before.operators.drop_last());
    assert(top@ == before.operators.last());
    match top.class {
        TokenType::Operator(op) => {
            let right = operands.pop().unwrap();
            let left = operands.pop().unwrap();
            let node = Expr::new_binary_op(left, right, &op);
            operands.push(node);
            assert(expr_views(operands@) =~= before.operands.take(n - 2).push(
                ExprView::binary(op, before.operands[n - 2], before.operands[n - 1]),
            ));
        },
        TokenType::Unary(op) => {
            let operand = operands.pop().unwrap();
            let node = Expr::new_unary_op(operand, &op);
            operands.push(node);
            assert(expr_views(operands@) =~= before.operands.take(n - 1).push(
                ExprView::unary(op, before.operands[n - 1]),
            ));
        },
        _ => {},
    }
    let ghost after = yard_of(operands@, operators@, expect);
    assert(after.operands =~= before.reduced().operands);
    assert(after.operators =~= before.reduced().operators);
    assert forall|i: int| 0 <= i < after.operators.len() implies {
        let class = (#[trigger] after.operators[i]).class;
        class is Operator || class is Unary || class is Lparen
    } by {
        assert(after.operators[i] == before.operators[i]);
    }
}

/// Whether the latest pending operator is applied before a binary operator
/// of the given precedence is pushed.
fn yields(operators: &Vec<Token>, rank: u8) -> (r: bool)
    ensures
        r == (Yard {
            operands: Seq::empty(),
            operators: token_views(operators@),
            expect: ExpectType::Operator,
        }).yields_to(rank),
{
    if operators.len() == 0 {
        return false;
    }
    match &operators[operators.len() - 1].class {
        TokenType::Operator(top) => top.precedence() >= rank,
        TokenType::Unary(_) => true,
        _ => false,
    }
}

/// Applies pending operators for as long as the latest yields to a binary
/// operator of the given precedence.
fn settle(
    operands: &mut Vec<Expr>,
    operators: &mut Vec<Token>,
    rank: u8,
    Ghost(expect): Ghost<ExpectType>,
)
    requires
        yard_of(old(operands)@, old(operators)@, expect).balanced(),
        expect == ExpectType::Operator,
    ensures
        yard_of(final(operands)@, final(operators)@, expect) == yard_of(
            old(operands)@,
            old(operators)@,
            expect,
        ).settled(rank),
        yard_of(final(operands)@, final(operators)@, expect).balanced(),
{
    while yields(operators, rank)
        invariant
            expect == ExpectType::Operator,
            yard_of(operands@, operators@, expect).balanced(),
            yard_of(operands@, operators@, expect).settled(rank) == yard_of(
                old(operands)@,
                old(operators)@,
                expect,
            ).settled(rank),
        decreases operators@.len(),
    {
        reduce(operands, operators, Ghost(expect));
    }
}

/// Applies pending operators down to the latest opening parenthesis and
/// takes that off.
fn close(operands: &mut Vec<Expr>, operators: &mut Vec<Token>, Ghost(expect): Ghost<ExpectType>)
    requires
        yard_of(old(operands)@, old(operators)@, expect).balanced(),
        expect == ExpectType::Operator,
    ensures
        yard_of(final(operands)@, final(operators)@, expect) == yard_of(
            old(operands)@,
            old(operators)@,
            expect,
        ).closed(),
        yard_of(final(operands)@, final(operators)@, expect).balanced(),
{
    let mut open = false;
    while !open && operators.len() > 0
        invariant
            expect == ExpectType::Operator,
            yard_of(operands@, operators@, expect).balanced(),
            !open ==> yard_of(operands@, operators@, expect).closed() == yard_of(
                old(operands)@,
                old(operators)@,
                expect,
            ).closed(),
            open ==> yard_of(operands@, operators@, expect) == yard_of(
                old(operands)@,
                old(operators)@,
                expect,
            ).closed(),
        decreases operators@.len(),
    {
        open = matches!(operators[operators.len() - 1].class, TokenType::Lparen);
        reduce(operands, operators, Ghost(expect));
    }
}

/// A parser over a run of tokens that the end-of-file token closes.
pub struct Parser<'a> {
    tokens: &'a Vec<Token>,
    pos: usize,
}

impl<'a> Parser<'a> {
    #[verifier::type_invariant]
    spec fn inv(self) -> bool {
        &&& self.tokens@.len() > 0
        &&& self.tokens@.last()@.class is Eof
        &&& self.pos <= self.tokens@.len()
    }

    /// The tokens that the parser reads.
    pub closed spec fn tokens(&self) -> Seq<TokenView> {
        token_views(self.tokens@)
    }

    /// The index of the token at which the parser stands.
    pub closed spec fn position(&self) -> int {
        self.pos as int
    }

    /// A parser at the first token.
    pub fn new(tokens: &'a Vec<Token>) -> (parser: Parser<'a>)
        requires
            tokens@.len() > 0,
            tokens@.last()@.class is Eof,
        ensures
            parser.tokens() == token_views(tokens@),
            parser.position() == 0,
    {
        Self { tokens, pos: 0 }
    }

    /// Parses the tokens from the parser's position on. The result is the
    /// program, or all the errors that were found.
    pub fn parse(&mut self) -> (r: Result<Block, StmtErrors>)
        ensures
            final(self).tokens() == old(self).tokens(),
            parse_result(r) == parse_from(old(self).tokens(), old(self).position()),
            r is Err ==> r->Err_0@.len() > 0,
    {
        proof {
            use_type_invariant(&*self);
        }
        let ghost tokens = self.tokens();
        let ghost from = self.pos as int;
        let ghost start = Gathered { stmts: Seq::empty(), errors: Seq::empty(), pos: from };
        let mut stmts: Vec<Stmt> = Vec::new();
        let mut errors: Vec<StmtError> = Vec::new();
        assert(stmt_views(stmts@) =~= Seq::empty());
        assert(error_views(errors@) =~= Seq::empty());
        while !self.is_eof(self.pos) && !matches!(self.get_current_token().class, TokenType::Eof)
            invariant
                self.tokens == old(self).tokens,
                tokens == token_views(self.tokens@),
                self.pos <= tokens.len(),
                program_spec(tokens, start) == program_spec(
                    tokens,
                    Gathered {
                        stmts: stmt_views(stmts@),
                        errors: error_views(errors@),
                        pos: self.pos as int,
                    },
                ),
            decreases tokens.len() - self.pos,
        {
            let ghost so_far = Gathered {
                stmts: stmt_views(stmts@),
                errors: error_views(errors@),
                pos: self.pos as int,
            };
            proof {
                lemma_block_advances(tokens, self.pos as int);
            }
            match self.make_block() {
                Ok(Some(stmt)) => {
                    proof {
                        lemma_stmt_views_push(stmts@, stmt);
                    }
                    stmts.push(stmt);
                },
                Ok(None) => {},
                Err(mut more) => {
                    proof {
                        lemma_error_views_add(errors@, more.errors@);
                    }
                    errors.append(&mut more.errors);
                },
            }
            assert((Gathered {
                stmts: stmt_views(stmts@),
                errors: error_views(errors@),
                pos: self.pos as int,
            }) == so_far.with(block_spec(tokens, so_far.pos)));
        }
        proof {
            use_type_invariant(&*self);
        }
        if errors.len() > 0 {
            Err(StmtErrors { errors })
        } else {
            Ok(Block::new(stmts))
        }
    }

    /// A statement or a block at the parser's position.
    fn make_block(&mut self) -> (r: Result<Option<Stmt>, StmtErrors>)
        requires
            old(self).pos < old(self).tokens@.len(),
        ensures
            final(self).tokens == old(self).tokens,
            parsed_of(r, final(self).pos as int) == block_spec(
                token_views(old(self).tokens@),
                old(self).pos as int,
            ),
        decreases old(self).tokens@.len() - old(self).pos,
    {
        proof {
            use_type_invariant(&*self);
        }
        let ghost tokens = token_views(self.tokens@);
        let ghost at = self.pos as int;
        proof {
            lemma_block_advances(tokens, at);
        }
        match &self.tokens[self.pos].class {
            TokenType::Lbrace => {
                let open = self.tokens[self.pos].clone();
                self.consume();
                let ghost start = Gathered {
                    stmts: Seq::empty(),
                    errors: Seq::empty(),
                    pos: at + 1,
                };
                let mut stmts: Vec<Stmt> = Vec::new();
                let mut errors: Vec<StmtError> = Vec::new();
                let mut done = false;
                assert(stmt_views(stmts@) =~= Seq::empty());
                assert(error_views(errors@) =~= Seq::empty());
                while !done
                    invariant
                        self.tokens == old(self).tokens,
                        tokens == token_views(self.tokens@),
                        tokens.len() > 0,
                        tokens.last().class is Eof,
                        at == old(self).pos,
                        at < self.pos <= tokens.len(),
                        open@ == tokens[at],
                        !done ==> items_spec(tokens, open@, start) == items_spec(
                            tokens,
                            open@,
                            Gathered {
                                stmts: stmt_views(stmts@),
                                errors: error_views(errors@),
                                pos: self.pos as int,
                            },
                        ),
                        done ==> items_spec(tokens, open@, start) == (Gathered {
                            stmts: stmt_views(stmts@),
                            errors: error_views(errors@),
                            pos: self.pos as int,
                        }),
                    decreases tokens.len() - self.pos + if done { 0int } else { 1int },
                {
                    let ghost so_far = Gathered {
                        stmts: stmt_views(stmts@),
                        errors: error_views(errors@),
                        pos: self.pos as int,
                    };
                    if matches!(self.get_current_token().class, TokenType::Rbrace) {
                        done = true;
                    } else if matches!(self.get_current_token().class, TokenType::Eof) {
                        let error = StmtError::UnterminatedBlock(open.clone());
                        proof {
                            lemma_error_views_push(errors@, error);
                        }
                        errors.push(error);
                        done = true;
                    } else {
                        proof {
                            lemma_block_advances(tokens, self.pos as int);
                        }
                        match self.make_block() {
                            Ok(Some(stmt)) => {
                                proof {
                                    lemma_stmt_views_push(stmts@, stmt);
                                }
                                stmts.push(stmt);
                            },
                            Ok(None) => {},
                            Err(mut more) => {
                                proof {
                                    lemma_error_views_add(errors@, more.errors@);
                                }
                                errors.append(&mut more.errors);
                            },
                        }
                        assert((Gathered {
                            stmts: stmt_views(stmts@),
                            errors: error_views(errors@),
                            pos: self.pos as int,
                        }) == so_far.with(block_spec(tokens, so_far.pos)));
                    }
                }
                self.consume();
                if errors.len() == 0 {
                    let block = Stmt::Block(stmts);
                    proof {
                        block.lemma_model_of_body();
                    }
                    Ok(Some(block))
                } else {
                    Err(StmtErrors { errors })
                }
            },
            TokenType::Keyword(Keyword::While) => {
                self.consume();
                if !matches!(self.get_current_token().class, TokenType::Lparen) {
                    let error = StmtError::ExpectToken(
                        TokenType::Lparen,
                        self.get_current_token().clone(),
                    );
                    return Err(one_error(error));
                }
                let open = self.get_current_token().clone();
                self.consume();
                let from = self.pos;
                proof {
                    lemma_condition_end_bounds(tokens, from as int);
                }
                while !matches!(self.get_current_token().class, TokenType::Rparen)
                    invariant
                        self.tokens == old(self).tokens,
                        tokens == token_views(self.tokens@),
                        tokens.len() > 0,
                        tokens.last().class is Eof,
                        from <= self.pos <= tokens.len(),
                        from == at + 2,
                        at == old(self).pos,
                        0 <= at,
                        tokens[at].class == TokenTypeView::Keyword(Keyword::While),
                        tokens[at + 1].class is Lparen,
                        open@ == tokens[at + 1],
                        condition_end(tokens, from as int) == condition_end(
                            tokens,
                            self.pos as int,
                        ),
                    decreases tokens.len() - self.pos,
                {
                    if matches!(self.get_current_token().class, TokenType::Eof) || matches!(
                        self.get_current_token().class,
                        TokenType::Lbrace
                    ) || matches!(self.get_current_token().class, TokenType::Rbrace) {
                        return Err(one_error(StmtError::UnterminatedParenthesis(open)));
                    }
                    self.consume();
                }
                let end = self.pos;
                let condition = match self.make_expr(from, end) {
                    Ok(Some(expr)) => expr,
                    Ok(None) => {
                        self.consume();
                        return Err(one_error(StmtError::ExpectedExpression(open)));
                    },
                    Err(error) => {
                        self.consume();
                        return Err(one_error(StmtError::InvalidExpression(error)));
                    },
                };
                self.consume();
                proof {
                    lemma_block_advances(tokens, end + 1);
                }
                match self.make_block() {
                    Ok(stmt) => {
                        let body: Vec<Stmt> = match stmt {
                            Some(Stmt::Block(stmts)) => {
                                proof {
                                    Stmt::Block(stmts).lemma_model_of_body();
                                }
                                stmts
                            },
                            Some(other) => {
                                let mut body: Vec<Stmt> = Vec::new();
                                proof {
                                    lemma_stmt_views_push(body@, other);
                                    assert(stmt_views(body@) =~= Seq::empty());
                                }
                                body.push(other);
                                body
                            },
                            None => {
                                let body: Vec<Stmt> = Vec::new();
                                assert(stmt_views(body@) =~= Seq::empty());
                                body
                            },
                        };
                        let stmt = Stmt::While(condition, body);
                        proof {
                            stmt.lemma_model_of_body();
                        }
                        Ok(Some(stmt))
                    },
                    Err(errors) => Err(errors),
                }
            },
            TokenType::Rbrace => {
                let close = self.tokens[self.pos].clone();
                self.consume();
                let ghost from = self.pos as int;
                proof {
                    lemma_recovery_end_bounds(tokens, from);
                }
                while !matches!(self.get_current_token().class, TokenType::StmtEnd) && !matches!(
                    self.get_current_token().class,
                    TokenType::Eof
                )
                    invariant
                        self.tokens == old(self).tokens,
                        tokens == token_views(self.tokens@),
                        tokens.len() > 0,
                        tokens.last().class is Eof,
                        from <= self.pos <= tokens.len(),
                        recovery_end(tokens, from) == recovery_end(tokens, self.pos as int),
                    decreases tokens.len() - self.pos,
                {
                    self.consume();
                }
                Err(one_error(StmtError::UnexpectedBlockClose(close)))
            },
            TokenType::StmtEnd => {
                self.consume();
                Ok(None)
            },
            _ => {
                let from = self.pos;
                self.consume();
                proof {
                    lemma_statement_end_bounds(tokens, from + 1);
                }
                while !self.ends_statement()
                    invariant
                        self.tokens == old(self).tokens,
                        tokens == token_views(self.tokens@),
                        tokens.len() > 0,
                        tokens.last().class is Eof,
                        from < self.pos <= tokens.len(),
                        statement_end(tokens, from + 1) == statement_end(tokens, self.pos as int),
                    decreases tokens.len() - self.pos,
                {
                    self.consume();
                }
                match self.make_statement(from, self.pos) {
                    Ok(stmt) => Ok(Some(stmt)),
                    Err(error) => Err(one_error(error)),
                }
            },
        }
    }

    /// Whether the token at the parser's position ends the run of a plain
    /// statement.
    fn ends_statement(&self) -> (r: bool)
        ensures
            r == (self.pos >= self.tokens@.len() || ends_statement(
                token_views(self.tokens@)[self.pos as int].class,
            )),
    {
        proof {
            use_type_invariant(self);
        }
        match &self.get_current_token().class {
            TokenType::StmtEnd => true,
            TokenType::Eof => true,
            TokenType::Lbrace => true,
            TokenType::Rbrace => true,
            _ => false,
        }
    }

    /// The statement that the tokens from `from` up to `to` write.
    fn make_statement(&self, from: usize, to: usize) -> (r: Result<Stmt, StmtError>)
        requires
            from < to <= self.tokens@.len(),
        ensures
            stmt_result(r) == statement_spec(
                token_views(self.tokens@).subrange(from as int, to as int),
                token_at(token_views(self.tokens@), self.pos as int),
            ),
    {
        match &self.tokens[from].class {
            TokenType::Keyword(Keyword::Let) => self.make_let_stmt(from, to),
            TokenType::Keyword(Keyword::Print) => self.make_print_stmt(from, to),
            TokenType::Ident(_) => self.make_ident_stmt(from, to),
            TokenType::Literal(_) => self.make_expr_stmt(from, to),
            TokenType::Decimal(_) => self.make_expr_stmt(from, to),
            TokenType::Lparen => self.make_expr_stmt(from, to),
            TokenType::Unary(_) => self.make_expr_stmt(from, to),
            _ => Err(StmtError::InvalidStartToken(self.tokens[from].clone())),
        }
    }

    fn make_let_stmt(&self, from: usize, to: usize) -> (r: Result<Stmt, StmtError>)
        requires
            from < to <= self.tokens@.len(),
        ensures
            stmt_result(r) == let_spec(
                token_views(self.tokens@).subrange(from as int, to as int),
                token_at(token_views(self.tokens@), self.pos as int),
            ),
    {
        let ghost run = token_views(self.tokens@).subrange(from as int, to as int);
        if to - from < 3 {
            return Err(StmtError::IncompleteStatement(self.tokens[from].clone()));
        }
        let name = match &self.tokens[from + 1].class {
            TokenType::Ident(name) => name.clone(),
            _ => {
                return Err(
                    StmtError::ExpectToken(
                        TokenType::Ident(String::new()),
                        self.tokens[from + 1].clone(),
                    ),
                );
            },
        };
        match &self.tokens[from + 2].class {
            TokenType::Assign => {},
            _ => {
                return Err(
                    StmtError::ExpectToken(TokenType::Assign, self.tokens[from + 2].clone()),
                );
            },
        }
        assert(run.skip(3) =~= token_views(self.tokens@).subrange(from + 3, to as int));
        let expr = self.make_expr(from + 3, to);
        match self.check_expression(expr) {
            Ok(expr) => Ok(Stmt::Assign(name, expr)),
            Err(error) => Err(error),
        }
    }

    fn make_print_stmt(&self, from: usize, to: usize) -> (r: Result<Stmt, StmtError>)
        requires
            from < to <= self.tokens@.len(),
        ensures
            stmt_result(r) == print_spec(
                token_views(self.tokens@).subrange(from as int, to as int),
                token_at(token_views(self.tokens@), self.pos as int),
            ),
    {
        let ghost run = token_views(self.tokens@).subrange(from as int, to as int);
        assert(run.skip(1) =~= token_views(self.tokens@).subrange(from + 1, to as int));
        let expr = self.make_expr(from + 1, to);
        match self.check_expression(expr) {
            Ok(expr) => Ok(Stmt::Print(expr)),
            Err(error) => Err(error),
        }
    }

    fn make_ident_stmt(&self, from: usize, to: usize) -> (r: Result<Stmt, StmtError>)
        requires
            from < to <= self.tokens@.len(),
            self.tokens@[from as int]@.class is Ident,
        ensures
            stmt_result(r) == ident_spec(
                token_views(self.tokens@).subrange(from as int, to as int),
                token_at(token_views(self.tokens@), self.pos as int),
            ),
    {
        let ghost run = token_views(self.tokens@).subrange(from as int, to as int);
        if to - from >= 2 && matches!(self.tokens[from + 1].class, TokenType::Assign) {
            let name = match &self.tokens[from].class {
                TokenType::Ident(name) => name.clone(),
                _ => String::new(),
            };
            assert(run.skip(2) =~= token_views(self.tokens@).subrange(from + 2, to as int));
            let expr = self.make_expr(from + 2, to);
            match self.check_expression(expr) {
                Ok(expr) => Ok(Stmt::Reassign(name, expr)),
                Err(error) => Err(error),
            }
        } else {
            self.make_expr_stmt(from, to)
        }
    }

    fn make_expr_stmt(&self, from: usize, to: usize) -> (r: Result<Stmt, StmtError>)
        requires
            from < to <= self.tokens@.len(),
        ensures
            stmt_result(r) == expr_stmt_spec(
                token_views(self.tokens@).subrange(from as int, to as int),
                token_at(token_views(self.tokens@), self.pos as int),
            ),
    {
        let expr = self.make_expr(from, to);
        match self.check_expression(expr) {
            Ok(expr) => Ok(Stmt::Expr(expr)),
            Err(error) => Err(error),
        }
    }

    /// The expression that the tokens from `from` up to `to` write, by
    /// operator precedence; none for an empty run.
    fn make_expr(&self, from: usize, to: usize) -> (r: Result<Option<Expr>, ExprError>)
        requires
            from <= to <= self.tokens@.len(),
        ensures
            expr_result(r) == expr_spec(
                token_views(self.tokens@).subrange(from as int, to as int),
                token_at(token_views(self.tokens@), self.pos as int),
            ),
    {
        proof {
            use_type_invariant(self);
        }
        let ghost run = token_views(self.tokens@).subrange(from as int, to as int);
        if from == to {
            return Ok(None);
        }
        let mut operands: Vec<Expr> = Vec::new();
        let mut operators: Vec<Token> = Vec::new();
        let mut expect = ExpectType::Operand;
        let mut i: usize = from;
        assert(yard_of(operands@, operators@, expect) =~= Yard::start()) by {
            assert(expr_views(operands@) =~= Seq::empty());
            assert(token_views(operators@) =~= Seq::empty());
        }
        assert(crate::grammar::binary_count(Seq::<TokenView>::empty()) == 0);
        while i < to
            invariant
                from <= i <= to <= self.tokens@.len(),
                run == token_views(self.tokens@).subrange(from as int, to as int),
                yard_of(operands@, operators@, expect).balanced(),
                Yard::start().shunted(run, 0) == yard_of(operands@, operators@, expect).shunted(
                    run,
                    i - from,
                ),
            decreases to - i,
        {
            let token = &self.tokens[i];
            let ghost yard = yard_of(operands@, operators@, expect);
            assert(run[i - from] == token@);
            match &token.class {
                TokenType::Literal(value) => {
                    if expect == ExpectType::Operator {
                        return Err(ExprError::ExpectTokenError(expect, token.clone()));
                    }
                    let operand = Expr::new_literal(value);
                    proof {
                        lemma_expr_views_push(operands@, operand);
                    }
                    operands.push(operand);
                    expect = ExpectType::Operator;
                },
                TokenType::Decimal(text) => {
                    if expect == ExpectType::Operator {
                        return Err(ExprError::ExpectTokenError(expect, token.clone()));
                    }
                    let operand = Expr::Decimal(text.clone());
                    proof {
                        lemma_expr_views_push(operands@, operand);
                    }
                    operands.push(operand);
                    expect = ExpectType::Operator;
                },
                TokenType::Ident(name) => {
                    if expect == ExpectType::Operator {
                        return Err(ExprError::ExpectTokenError(expect, token.clone()));
                    }
                    let operand = Expr::Ident(name.clone());
                    proof {
                        lemma_expr_views_push(operands@, operand);
                    }
                    operands.push(operand);
                    expect = ExpectType::Operator;
                },
                TokenType::Operator(op) => {
                    if expect == ExpectType::Operand {
                        return Err(ExprError::ExpectTokenError(expect, token.clone()));
                    }
                    settle(&mut operands, &mut operators, op.precedence(), Ghost(expect));
                    let pending = token.clone();
                    proof {
                        lemma_token_views_push(operators@, pending);
                    }
                    operators.push(pending);
                    expect = ExpectType::Operand;
                },
                TokenType::Unary(_) => {
                    if expect == ExpectType::Operator {
                        return Err(ExprError::ExpectTokenError(expect, token.clone()));
                    }
                    let pending = token.clone();
                    proof {
                        lemma_token_views_push(operators@, pending);
                    }
                    operators.push(pending);
                },
                TokenType::Lparen => {
                    if expect == ExpectType::Operator {
                        return Err(ExprError::ExpectTokenError(expect, token.clone()));
                    }
                    let pending = token.clone();
                    proof {
                        lemma_token_views_push(operators@, pending);
                    }
                    operators.push(pending);
                },
                TokenType::Rparen => {
                    if expect == ExpectType::Operand {
                        return Err(ExprError::ExpectTokenError(expect, token.clone()));
                    }
                    close(&mut operands, &mut operators, Ghost(expect));
                },
                _ => {
                    return Err(ExprError::ExpectTokenError(ExpectType::Operand, token.clone()));
                },
            }
            assert(yard.fed(token@) == Ok::<Yard, ExprErrorView>(
                yard_of(operands@, operators@, expect),
            ));
            proof {
                lemma_fed_balanced(yard, token@);
            }
            i = i + 1;
        }
        if expect == ExpectType::Operand {
            return Err(
                ExprError::ExpectTokenError(ExpectType::Operand, self.get_current_token().clone()),
            );
        }
        let ghost whole = yard_of(operands@, operators@, expect);
        while operators.len() > 0
            invariant
                expect == ExpectType::Operator,
                from < to <= self.tokens@.len(),
                run == token_views(self.tokens@).subrange(from as int, to as int),
                Yard::start().shunted(run, 0) == Ok::<Yard, ExprErrorView>(whole),
                whole.expect == ExpectType::Operator,
                yard_of(operands@, operators@, expect).balanced(),
                whole.drained() == yard_of(operands@, operators@, expect).drained(),
            decreases operators@.len(),
        {
            if matches!(operators[operators.len() - 1].class, TokenType::Lparen) {
                return Err(
                    ExprError::UnterminatedParenthesis(operators[operators.len() - 1].clone()),
                );
            }
            reduce(&mut operands, &mut operators, Ghost(expect));
        }
        assert(crate::grammar::binary_count(token_views(operators@)) == 0);
        let expr = operands.pop().unwrap();
        Ok(Some(expr))
    }

    /// The expression part of a statement: it has to be there and to be well
    /// formed.
    fn check_expression(&self, expr: Result<Option<Expr>, ExprError>) -> (r: Result<
        Expr,
        StmtError,
    >)
        ensures
            checked_result(r) == match expr_result(expr) {
                Ok(Some(expr)) => Ok::<ExprView, StmtErrorView>(expr),
                Ok(None) => Err(
                    StmtErrorView::ExpectedExpression(
                        token_at(token_views(self.tokens@), self.pos as int),
                    ),
                ),
                Err(error) => Err(StmtErrorView::InvalidExpression(error)),
            },
    {
        match expr {
            Ok(Some(expr)) => Ok(expr),
            Ok(None) => Err(StmtError::ExpectedExpression(self.get_current_token().clone())),
            Err(error) => Err(StmtError::InvalidExpression(error)),
        }
    }

    /// Moves to the next token; behind the last token the parser stays.
    fn consume(&mut self)
        ensures
            final(self).tokens == old(self).tokens,
            final(self).pos == if old(self).pos < old(self).tokens@.len() {
                old(self).pos + 1
            } else {
                old(self).pos as int
            },
    {
        proof {
            use_type_invariant(&*self);
        }
        if self.pos < self.tokens.len() {
            self.pos = self.pos + 1;
        }
    }

    /// The token at the parser's position; behind the last token, the last
    /// token.
    fn get_current_token(&self) -> (token: &Token)
        ensures
            token@ == token_at(token_views(self.tokens@), self.pos as int),
            self.tokens@.len() > 0,
            token_views(self.tokens@).last().class is Eof,
    {
        proof {
            use_type_invariant(self);
        }
        if self.is_eof(self.pos) {
            &self.tokens[self.tokens.len() - 1]
        } else {
            &self.tokens[self.pos]
        }
    }

    fn is_eof(&self, pos: usize) -> (r: bool)
        ensures
            r == (pos >= self.tokens@.len()),
    {
        pos >= self.tokens.len()
    }
}

fn one_error(error: StmtError) -> (r: StmtErrors)
    ensures
        r@ == seq![error@],
{
    let mut errors: Vec<StmtError> = Vec::new();
    errors.push(error);
    assert(error_views(errors@) =~= seq![error@]);
    StmtErrors { errors }
}

/// A token that fits keeps the stacks fitting together.
proof fn lemma_fed_balanced(yard: Yard, token: TokenView)
    requires
        yard.balanced(),
        yard.fed(token) is Ok,
    ensures
        yard.fed(token)->Ok_0.balanced(),
{
    let next = yard.fed(token)->Ok_0;
    match token.class {
        TokenTypeView::Operator(op) => {
            lemma_settled_balanced(yard, op.rank());
            let settled = yard.settled(op.rank());
            assert(next.operators.drop_last() =~= settled.operators);
            assert forall|i: int| 0 <= i < next.operators.len() implies {
                let class = (#[trigger] next.operators[i]).class;
                class is Operator || class is Unary || class is Lparen
            } by {
                if i < settled.operators.len() {
                    assert(next.operators[i] == settled.operators[i]);
                }
            }
        },
        TokenTypeView::Rparen => {
            lemma_closed_balanced(yard);
        },
        TokenTypeView::Unary(_) => {
            assert(next.operators.drop_last() =~= yard.operators);
            assert forall|i: int| 0 <= i < next.operators.len() implies {
                let class = (#[trigger] next.operators[i]).class;
                class is Operator || class is Unary || class is Lparen
            } by {
                if i < yard.operators.len() {
                    assert(next.operators[i] == yard.operators[i]);
                }
            }
        },
        TokenTypeView::Lparen => {
            assert(next.operators.drop_last() =~= yard.operators);
            assert forall|i: int| 0 <= i < next.operators.len() implies {
                let class = (#[trigger] next.operators[i]).class;
                class is Operator || class is Unary || class is Lparen
            } by {
                if i < yard.operators.len() {
                    assert(next.operators[i] == yard.operators[i]);
                }
            }
        },
        _ => {},
    }
}

proof fn lemma_reduced_balanced(yard: Yard)
    requires
        yard.balanced(),
        yard.expect == ExpectType::Operator,
        yard.operators.len() > 0,
    ensures
        yard.reduced().balanced(),
{
    let next = yard.reduced();
    assert forall|i: int| 0 <= i < next.operators.len() implies {
        let class = (#[trigger] next.operators[i]).class;
        class is Operator || class is Unary || class is Lparen
    } by {
        assert(next.operators[i] == yard.operators[i]);
    }
}

proof fn lemma_settled_balanced(yard: Yard, rank: u8)
    requires
        yard.balanced(),
        yard.expect == ExpectType::Operator,
    ensures
        yard.settled(rank).balanced(),
        yard.settled(rank).expect == ExpectType::Operator,
    decreases yard.operators.len(),
{
    if yard.yields_to(rank) {
        lemma_reduced_balanced(yard);
        lemma_settled_balanced(yard.reduced(), rank);
    }
}

proof fn lemma_closed_balanced(yard: Yard)
    requires
        yard.balanced(),
        yard.expect == ExpectType::Operator,
    ensures
        yard.closed().balanced(),
        yard.closed().expect == ExpectType::Operator,
    decreases yard.operators.len(),
{
    if yard.operators.len() > 0 {
        lemma_reduced_balanced(yard);
        if !(yard.operators.last().class is Lparen) {
            lemma_closed_balanced(yard.reduced());
        }
    }
}

} // verus!

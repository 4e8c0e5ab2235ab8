//! What the parser computes, stated over models: the operator-precedence
//! parse of an expression and the statement grammar.

use crate::errors::{ExprErrorView, StmtErrorView};
use crate::expr::{ExpectType, ExprView};
use crate::stmt::StmtView;
use crate::token::{Keyword, TokenTypeView, TokenView};
use vstd::prelude::*;

verus! {

/// The two stacks of the operator-precedence parse, and what it waits for.
pub struct Yard {
    /// The operands read or built so far, the latest last.
    pub operands: Seq<ExprView>,
    /// The pending operators and opening parentheses, the latest last.
    pub operators: Seq<TokenView>,
    pub expect: ExpectType,
}

/// How many binary operators a stack of pending operators holds.
pub open spec fn binary_count(operators: Seq<TokenView>) -> nat
    decreases operators.len(),
{
    if operators.len() == 0 {
        0
    } else {
        binary_count(operators.drop_last()) + if operators.last().class is Operator {
            1nat
        } else {
            0nat
        }
    }
}

impl Yard {
    /// Empty stacks, waiting for an operand.
    pub open spec fn start() -> Yard {
        Yard { operands: Seq::empty(), operators: Seq::empty(), expect: ExpectType::Operand }
    }

    /// The stacks fit together: there is one operand for each pending binary
    /// operator, and one more once an operand was read last. Only operators
    /// and opening parentheses are pending.
    pub open spec fn balanced(self) -> bool {
        &&& self.operands.len() == binary_count(self.operators) + if self.expect
            == ExpectType::Operator {
            1nat
        } else {
            0nat
        }
        &&& forall|i: int|
            0 <= i < self.operators.len() ==> {
                let class = (#[trigger] self.operators[i]).class;
                class is Operator || class is Unary || class is Lparen
            }
    }

    /// The stacks with one more operand; an operator is due next.
    pub open spec fn with_operand(self, operand: ExprView) -> Yard {
        Yard {
            operands: self.operands.push(operand),
            operators: self.operators,
            expect: ExpectType::Operator,
        }
    }

    /// The stacks with one more pending operator or opening parenthesis; an
    /// operand is due next.
    pub open spec fn with_operator(self, token: TokenView) -> Yard {
        Yard {
            operands: self.operands,
            operators: self.operators.push(token),
            expect: ExpectType::Operand,
        }
    }

    /// Takes the latest pending operator off its stack and applies it: a
    /// binary one to the two latest operands, a unary one to the latest. An
    /// opening parenthesis is only taken off.
    pub open spec fn reduced(self) -> Yard
        recommends
            self.operators.len() > 0,
    {
        let n = self.operands.len() as int;
        let rest = self.operators.drop_last();
        match self.operators.last().class {
            TokenTypeView::Operator(op) => Yard {
                operands: self.operands.take(n - 2).push(
                    ExprView::binary(op, self.operands[n - 2], self.operands[n - 1]),
                ),
                operators: rest,
                expect: self.expect,
            },
            TokenTypeView::Unary(op) => Yard {
                operands: self.operands.take(n - 1).push(ExprView::unary(op, self.operands[n - 1])),
                operators: rest,
                expect: self.expect,
            },
            _ => Yard { operands: self.operands, operators: rest, expect: self.expect },
        }
    }

    /// Whether the latest pending operator is applied before a binary
    /// operator of the given precedence is pushed: a unary operator always, a
    /// binary one of the same or a higher precedence.
    pub open spec fn yields_to(self, rank: u8) -> bool {
        self.operators.len() > 0 && match self.operators.last().class {
            TokenTypeView::Operator(top) => top.rank() >= rank,
            TokenTypeView::Unary(_) => true,
            _ => false,
        }
    }

    /// Applies pending operators for as long as the latest yields to an
    /// incoming binary operator of the given precedence.
    pub open spec fn settled(self, rank: u8) -> Yard
        decreases self.operators.len(),
    {
        if self.yields_to(rank) {
            self.reduced().settled(rank)
        } else {
            self
        }
    }

    /// Applies pending operators down to the latest opening parenthesis and
    /// takes that off. Where there is none, all pending operators are applied.
    pub open spec fn closed(self) -> Yard
        decreases self.operators.len(),
    {
        if self.operators.len() == 0 {
            self
        } else if self.operators.last().class is Lparen {
            self.reduced()
        } else {
            self.reduced().closed()
        }
    }

    /// Applies all pending operators; the one operand left is the
    /// expression. An opening parenthesis still pending is an error.
    pub open spec fn drained(self) -> Result<ExprView, ExprErrorView>
        decreases self.operators.len(),
    {
        if self.operators.len() == 0 {
            Ok(self.operands.last())
        } else if self.operators.last().class is Lparen {
            Err(ExprErrorView::UnterminatedParenthesis(self.operators.last()))
        } else {
            self.reduced().drained()
        }
    }

    /// The stacks after one more token, or the error that the token is.
    pub open spec fn fed(self, token: TokenView) -> Result<Yard, ExprErrorView> {
        let misplaced: Result<Yard, ExprErrorView> = Err(
            ExprErrorView::ExpectTokenError(self.expect, token),
        );
        match token.class {
            TokenTypeView::Literal(value) => if self.expect == ExpectType::Operator {
                misplaced
            } else {
                Ok(self.with_operand(ExprView::Literal(value)))
            },
            TokenTypeView::Decimal(text) => if self.expect == ExpectType::Operator {
                misplaced
            } else {
                Ok(self.with_operand(ExprView::Decimal(text)))
            },
            TokenTypeView::Ident(name) => if self.expect == ExpectType::Operator {
                misplaced
            } else {
                Ok(self.with_operand(ExprView::Ident(name)))
            },
            TokenTypeView::Operator(op) => if self.expect == ExpectType::Operand {
                misplaced
            } else {
                Ok(self.settled(op.rank()).with_operator(token))
            },
            TokenTypeView::Unary(_) => if self.expect == ExpectType::Operator {
                misplaced
            } else {
                Ok(self.with_operator(token))
            },
            TokenTypeView::Lparen => if self.expect == ExpectType::Operator {
                misplaced
            } else {
                Ok(self.with_operator(token))
            },
            TokenTypeView::Rparen => if self.expect == ExpectType::Operand {
                misplaced
            } else {
                Ok(self.closed())
            },
            _ => Err(ExprErrorView::ExpectTokenError(ExpectType::Operand, token)),
        }
    }

    /// The stacks after the tokens from index `from` on, or the first error.
    pub open spec fn shunted(self, tokens: Seq<TokenView>, from: int) -> Result<Yard, ExprErrorView>
        decreases tokens.len() - from,
    {
        if from < 0 || from >= tokens.len() {
            Ok(self)
        } else {
            match self.fed(tokens[from]) {
                Ok(next) => next.shunted(tokens, from + 1),
                Err(error) => Err(error),
            }
        }
    }
}

/// The expression that a run of tokens writes: none for an empty run. `after`
/// is the token behind the run, at which a run that breaks off is reported.
pub open spec fn expr_spec(tokens: Seq<TokenView>, after: TokenView) -> Result<
    Option<ExprView>,
    ExprErrorView,
> {
    if tokens.len() == 0 {
        Ok(None)
    } else {
        match Yard::start().shunted(tokens, 0) {
            Err(error) => Err(error),
            Ok(yard) => if yard.expect == ExpectType::Operand {
                Err(ExprErrorView::ExpectTokenError(ExpectType::Operand, after))
            } else {
                match yard.drained() {
                    Ok(expr) => Ok(Some(expr)),
                    Err(error) => Err(error),
                }
            },
        }
    }
}

/// The expression part of a statement: it has to be there and to be well
/// formed.
pub open spec fn checked_expr(tokens: Seq<TokenView>, after: TokenView) -> Result<
    ExprView,
    StmtErrorView,
> {
    match expr_spec(tokens, after) {
        Ok(Some(expr)) => Ok(expr),
        Ok(None) => Err(StmtErrorView::ExpectedExpression(after)),
        Err(error) => Err(StmtErrorView::InvalidExpression(error)),
    }
}

/// `let`, a name, `=`, an expression.
pub open spec fn let_spec(tokens: Seq<TokenView>, after: TokenView) -> Result<
    StmtView,
    StmtErrorView,
> {
    if tokens.len() < 3 {
        Err(StmtErrorView::IncompleteStatement(tokens[0]))
    } else if !(tokens[1].class is Ident) {
        Err(StmtErrorView::ExpectToken(TokenTypeView::Ident(Seq::empty()), tokens[1]))
    } else if !(tokens[2].class is Assign) {
        Err(StmtErrorView::ExpectToken(TokenTypeView::Assign, tokens[2]))
    } else {
        match checked_expr(tokens.skip(3), after) {
            Ok(expr) => Ok(StmtView::Assign(tokens[1].class->Ident_0, expr)),
            Err(error) => Err(error),
        }
    }
}

/// A statement that starts with a name: a new value for it where `=`
/// follows, else an expression.
pub open spec fn ident_spec(tokens: Seq<TokenView>, after: TokenView) -> Result<
    StmtView,
    StmtErrorView,
> {
    if tokens.len() >= 2 && tokens[1].class is Assign {
        match checked_expr(tokens.skip(2), after) {
            Ok(expr) => Ok(StmtView::Reassign(tokens[0].class->Ident_0, expr)),
            Err(error) => Err(error),
        }
    } else {
        expr_stmt_spec(tokens, after)
    }
}

/// A statement that is an expression.
pub open spec fn expr_stmt_spec(tokens: Seq<TokenView>, after: TokenView) -> Result<
    StmtView,
    StmtErrorView,
> {
    match checked_expr(tokens, after) {
        Ok(expr) => Ok(StmtView::Expr(expr)),
        Err(error) => Err(error),
    }
}

/// `print`, an expression.
pub open spec fn print_spec(tokens: Seq<TokenView>, after: TokenView) -> Result<
    StmtView,
    StmtErrorView,
> {
    match checked_expr(tokens.skip(1), after) {
        Ok(expr) => Ok(StmtView::Print(expr)),
        Err(error) => Err(error),
    }
}

/// The statement that a run of tokens writes; its first token decides the
/// shape.
pub open spec fn statement_spec(tokens: Seq<TokenView>, after: TokenView) -> Result<
    StmtView,
    StmtErrorView,
>
    recommends
        tokens.len() > 0,
{
    match tokens[0].class {
        TokenTypeView::Keyword(Keyword::Let) => let_spec(tokens, after),
        TokenTypeView::Keyword(Keyword::Print) => print_spec(tokens, after),
        TokenTypeView::Ident(_) => ident_spec(tokens, after),
        TokenTypeView::Literal(_) => expr_stmt_spec(tokens, after),
        TokenTypeView::Decimal(_) => expr_stmt_spec(tokens, after),
        TokenTypeView::Lparen => expr_stmt_spec(tokens, after),
        TokenTypeView::Unary(_) => expr_stmt_spec(tokens, after),
        _ => Err(StmtErrorView::InvalidStartToken(tokens[0])),
    }
}

/// The token at a position; behind the end, the last token.
pub open spec fn token_at(tokens: Seq<TokenView>, pos: int) -> TokenView
    recommends
        tokens.len() > 0,
        0 <= pos,
{
    if pos < tokens.len() {
        tokens[pos]
    } else {
        tokens.last()
    }
}

/// The position behind `pos`; the end stays the end.
pub open spec fn next_pos(tokens: Seq<TokenView>, pos: int) -> int {
    if pos < tokens.len() {
        pos + 1
    } else {
        pos
    }
}

/// Whether a token ends the run of a plain statement: a statement end, a
/// brace, or the end of the file.
pub open spec fn ends_statement(class: TokenTypeView) -> bool {
    class is StmtEnd || class is Eof || class is Lbrace || class is Rbrace
}

/// Where the run of a plain statement ends that holds the token before
/// `pos`.
pub open spec fn statement_end(tokens: Seq<TokenView>, pos: int) -> int
    decreases tokens.len() - pos,
{
    if pos < 0 || pos >= tokens.len() || ends_statement(tokens[pos].class) {
        pos
    } else {
        statement_end(tokens, pos + 1)
    }
}

/// Where the parser goes on behind a stray closing brace: at the next
/// statement end, or at the end of the file.
pub open spec fn recovery_end(tokens: Seq<TokenView>, pos: int) -> int
    decreases tokens.len() - pos,
{
    if pos < 0 || pos >= tokens.len() || tokens[pos].class is StmtEnd || tokens[pos].class is Eof {
        pos
    } else {
        recovery_end(tokens, pos + 1)
    }
}

/// Where the tokens of a loop's condition end: at the first closing
/// parenthesis, or at a brace or the end of the file.
pub open spec fn condition_end(tokens: Seq<TokenView>, pos: int) -> int
    decreases tokens.len() - pos,
{
    if pos < 0 || pos >= tokens.len() || tokens[pos].class is Rparen || tokens[pos].class is Eof
        || tokens[pos].class is Lbrace || tokens[pos].class is Rbrace {
        pos
    } else {
        condition_end(tokens, pos + 1)
    }
}

/// What one call of the parser gives: a statement, nothing (for an empty
/// statement), or errors; and the position at which it goes on.
pub struct Parsed {
    pub result: Result<Option<StmtView>, Seq<StmtErrorView>>,
    pub pos: int,
}

/// What the parser has gathered inside a block or at the top level.
pub struct Gathered {
    pub stmts: Seq<StmtView>,
    pub errors: Seq<StmtErrorView>,
    pub pos: int,
}

impl Gathered {
    /// What was gathered, with the outcome of one more statement.
    pub open spec fn with(self, parsed: Parsed) -> Gathered {
        match parsed.result {
            Ok(Some(stmt)) => Gathered {
                stmts: self.stmts.push(stmt),
                errors: self.errors,
                pos: parsed.pos,
            },
            Ok(None) => Gathered { stmts: self.stmts, errors: self.errors, pos: parsed.pos },
            Err(errors) => Gathered {
                stmts: self.stmts,
                errors: self.errors + errors,
                pos: parsed.pos,
            },
        }
    }
}

/// The statements of a loop's body: those of a block, else the one
/// statement, else none.
pub open spec fn body_of(stmt: Option<StmtView>) -> Seq<StmtView> {
    match stmt {
        Some(StmtView::Block(stmts)) => stmts,
        Some(other) => seq![other],
        None => Seq::empty(),
    }
}

/// A plain statement from `pos` on: nothing for a lone statement end, else
/// the statement that the tokens up to the next statement end or brace write.
pub open spec fn plain_spec(tokens: Seq<TokenView>, pos: int) -> Parsed
    recommends
        0 <= pos < tokens.len(),
{
    if tokens[pos].class is StmtEnd {
        Parsed { result: Ok(None), pos: pos + 1 }
    } else {
        let end = statement_end(tokens, pos + 1);
        Parsed {
            result: match statement_spec(tokens.subrange(pos, end), token_at(tokens, end)) {
                Ok(stmt) => Ok(Some(stmt)),
                Err(error) => Err(seq![error]),
            },
            pos: end,
        }
    }
}

/// A statement or a block from `pos` on. Behind the last token there is
/// nothing to read.
pub open spec fn block_spec(tokens: Seq<TokenView>, pos: int) -> Parsed
    decreases tokens.len() - pos, 0nat,
{
    if pos < 0 || pos >= tokens.len() {
        Parsed { result: Ok(None), pos }
    } else {
        match tokens[pos].class {
            TokenTypeView::Lbrace => {
                let inner = items_spec(
                    tokens,
                    tokens[pos],
                    Gathered { stmts: Seq::empty(), errors: Seq::empty(), pos: pos + 1 },
                );
                Parsed {
                    result: if inner.errors.len() == 0 {
                        Ok(Some(StmtView::Block(inner.stmts)))
                    } else {
                        Err(inner.errors)
                    },
                    pos: next_pos(tokens, inner.pos),
                }
            },
            TokenTypeView::Keyword(Keyword::While) => {
                let open = token_at(tokens, pos + 1);
                if !(open.class is Lparen) {
                    Parsed {
                        result: Err(
                            seq![StmtErrorView::ExpectToken(TokenTypeView::Lparen, open)],
                        ),
                        pos: pos + 1,
                    }
                } else {
                    let end = condition_end(tokens, pos + 2);
                    let close = token_at(tokens, end);
                    if !(close.class is Rparen && pos + 2 <= end < tokens.len()) {
                        Parsed {
                            result: Err(seq![StmtErrorView::UnterminatedParenthesis(open)]),
                            pos: end,
                        }
                    } else {
                        match expr_spec(tokens.subrange(pos + 2, end), close) {
                            Ok(None) => Parsed {
                                result: Err(seq![StmtErrorView::ExpectedExpression(open)]),
                                pos: end + 1,
                            },
                            Err(error) => Parsed {
                                result: Err(seq![StmtErrorView::InvalidExpression(error)]),
                                pos: end + 1,
                            },
                            Ok(Some(condition)) => {
                                let body = block_spec(tokens, end + 1);
                                Parsed {
                                    result: match body.result {
                                        Ok(stmt) => Ok(
                                            Some(StmtView::While(condition, body_of(stmt))),
                                        ),
                                        Err(errors) => Err(errors),
                                    },
                                    pos: body.pos,
                                }
                            },
                        }
                    }
                }
            },
            TokenTypeView::Rbrace => Parsed {
                result: Err(seq![StmtErrorView::UnexpectedBlockClose(tokens[pos])]),
                pos: recovery_end(tokens, pos + 1),
            },
            _ => plain_spec(tokens, pos),
        }
    }
}

/// The statements and errors of a block from `so_far.pos` on, up to the
/// closing brace. `open` is the brace that opened it: the end of the file
/// before the closing brace is reported there.
pub open spec fn items_spec(tokens: Seq<TokenView>, open: TokenView, so_far: Gathered) -> Gathered
    decreases tokens.len() - so_far.pos, 1nat,
{
    let pos = so_far.pos;
    if pos < 0 || token_at(tokens, pos).class is Rbrace {
        so_far
    } else if pos >= tokens.len() || tokens[pos].class is Eof {
        Gathered {
            stmts: so_far.stmts,
            errors: so_far.errors.push(StmtErrorView::UnterminatedBlock(open)),
            pos,
        }
    } else {
        let parsed = block_spec(tokens, pos);
        if pos < parsed.pos <= tokens.len() {
            items_spec(tokens, open, so_far.with(parsed))
        } else {
            so_far
        }
    }
}

/// The statements and errors of a program from `so_far.pos` on, up to the
/// end of the file.
pub open spec fn program_spec(tokens: Seq<TokenView>, so_far: Gathered) -> Gathered
    decreases tokens.len() - so_far.pos,
{
    let pos = so_far.pos;
    if pos < 0 || pos >= tokens.len() || tokens[pos].class is Eof {
        so_far
    } else {
        let parsed = block_spec(tokens, pos);
        if pos < parsed.pos <= tokens.len() {
            program_spec(tokens, so_far.with(parsed))
        } else {
            so_far
        }
    }
}

/// The parse of the tokens from `pos` on: the statements of the program, or,
/// where there is an error, all errors in the order in which they were found.
pub open spec fn parse_from(tokens: Seq<TokenView>, pos: int) -> Result<
    Seq<StmtView>,
    Seq<StmtErrorView>,
> {
    let all = program_spec(tokens, Gathered { stmts: Seq::empty(), errors: Seq::empty(), pos });
    if all.errors.len() == 0 {
        Ok(all.stmts)
    } else {
        Err(all.errors)
    }
}

/// The parse of a run of tokens.
pub open spec fn parse_spec(tokens: Seq<TokenView>) -> Result<Seq<StmtView>, Seq<StmtErrorView>> {
    parse_from(tokens, 0)
}


/// The run of a plain statement ends inside the tokens.
pub proof fn lemma_statement_end_bounds(tokens: Seq<TokenView>, pos: int)
    requires
        0 <= pos <= tokens.len(),
    ensures
        pos <= statement_end(tokens, pos) <= tokens.len(),
    decreases tokens.len() - pos,
{
    if pos < tokens.len() && !ends_statement(tokens[pos].class) {
        lemma_statement_end_bounds(tokens, pos + 1);
    }
}

/// The parser goes on inside the tokens behind a stray closing brace.
pub proof fn lemma_recovery_end_bounds(tokens: Seq<TokenView>, pos: int)
    requires
        0 <= pos <= tokens.len(),
    ensures
        pos <= recovery_end(tokens, pos) <= tokens.len(),
    decreases tokens.len() - pos,
{
    if pos < tokens.len() && !(tokens[pos].class is StmtEnd || tokens[pos].class is Eof) {
        lemma_recovery_end_bounds(tokens, pos + 1);
    }
}

/// The tokens of a loop's condition end inside the tokens.
pub proof fn lemma_condition_end_bounds(tokens: Seq<TokenView>, pos: int)
    requires
        0 <= pos <= tokens.len(),
    ensures
        pos <= condition_end(tokens, pos) <= tokens.len(),
    decreases tokens.len() - pos,
{
    if pos < tokens.len() && !(tokens[pos].class is Rparen || tokens[pos].class is Eof
        || tokens[pos].class is Lbrace || tokens[pos].class is Rbrace) {
        lemma_condition_end_bounds(tokens, pos + 1);
    }
}

/// Every call of the parser on a token moves past it and stays inside the
/// tokens.
pub proof fn lemma_block_advances(tokens: Seq<TokenView>, pos: int)
    requires
        0 <= pos < tokens.len(),
    ensures
        pos < block_spec(tokens, pos).pos <= tokens.len(),
    decreases tokens.len() - pos, 0nat,
{
    lemma_statement_end_bounds(tokens, pos + 1);
    lemma_recovery_end_bounds(tokens, pos + 1);
    match tokens[pos].class {
        TokenTypeView::Lbrace => {
            lemma_items_bounds(
                tokens,
                tokens[pos],
                Gathered { stmts: Seq::empty(), errors: Seq::empty(), pos: pos + 1 },
            );
        },
        TokenTypeView::Keyword(Keyword::While) => {
            if pos + 2 <= tokens.len() {
                lemma_condition_end_bounds(tokens, pos + 2);
                let end = condition_end(tokens, pos + 2);
                if end + 1 < tokens.len() {
                    lemma_block_advances(tokens, end + 1);
                }
            }
        },
        _ => {},
    }
}

/// The statements of a block are gathered without leaving the tokens.
pub proof fn lemma_items_bounds(tokens: Seq<TokenView>, open: TokenView, so_far: Gathered)
    requires
        0 <= so_far.pos <= tokens.len(),
    ensures
        so_far.pos <= items_spec(tokens, open, so_far).pos <= tokens.len(),
    decreases tokens.len() - so_far.pos, 1nat,
{
    let pos = so_far.pos;
    if pos < tokens.len() && !(tokens[pos].class is Rbrace) && !(tokens[pos].class is Eof) {
        lemma_block_advances(tokens, pos);
        let parsed = block_spec(tokens, pos);
        lemma_items_bounds(tokens, open, so_far.with(parsed));
    }
}


/// Whether a token is an operand by itself: a literal or a name.
pub open spec fn is_operand(token: TokenView) -> bool {
    token.class is Literal || token.class is Decimal || token.class is Ident
}

/// The expression that an operand token writes.
pub open spec fn operand_of(token: TokenView) -> ExprView
    recommends
        is_operand(token),
{
    match token.class {
        TokenTypeView::Literal(value) => ExprView::Literal(value),
        TokenTypeView::Decimal(text) => ExprView::Decimal(text),
        TokenTypeView::Ident(name) => ExprView::Ident(name),
        _ => ExprView::Ident(Seq::empty()),
    }
}

proof fn lemma_fed_operand(yard: Yard, token: TokenView)
    requires
        is_operand(token),
        yard.expect == ExpectType::Operand,
    ensures
        yard.fed(token) == Ok::<Yard, ExprErrorView>(yard.with_operand(operand_of(token))),
{
}

/// Precedence and grouping to the left: in `a first b second c`, the first
/// operator takes `a` and `b` where it binds as tightly as the second or
/// tighter, and else the second takes `b` and `c`.
pub proof fn lemma_two_operators(
    a: TokenView,
    first: TokenView,
    b: TokenView,
    second: TokenView,
    c: TokenView,
    after: TokenView,
)
    requires
        is_operand(a),
        is_operand(b),
        is_operand(c),
        first.class is Operator,
        second.class is Operator,
    ensures
        expr_spec(seq![a, first, b, second, c], after) == Ok::<Option<ExprView>, ExprErrorView>(
            Some(
                if first.class->Operator_0.rank() >= second.class->Operator_0.rank() {
                    ExprView::binary(
                        second.class->Operator_0,
                        ExprView::binary(first.class->Operator_0, operand_of(a), operand_of(b)),
                        operand_of(c),
                    )
                } else {
                    ExprView::binary(
                        first.class->Operator_0,
                        operand_of(a),
                        ExprView::binary(second.class->Operator_0, operand_of(b), operand_of(c)),
                    )
                },
            ),
        ),
{
    let tokens = seq![a, first, b, second, c];
    let o1 = first.class->Operator_0;
    let o2 = second.class->Operator_0;
    let (ea, eb, ec) = (operand_of(a), operand_of(b), operand_of(c));
    let none = Seq::<TokenView>::empty();
    let y0 = Yard::start();
    let y1 = Yard { operands: seq![ea], operators: none, expect: ExpectType::Operator };
    let y2 = Yard { operands: seq![ea], operators: seq![first], expect: ExpectType::Operand };
    let y3 = Yard { operands: seq![ea, eb], operators: seq![first], expect: ExpectType::Operator };
    lemma_fed_operand(y0, a);
    assert(y0.with_operand(ea).operands =~= y1.operands);
    assert(y0.fed(a) == Ok::<Yard, ExprErrorView>(y1));
    assert(y1.settled(o1.rank()) == y1);
    assert(y1.with_operator(first).operators =~= y2.operators);
    assert(y1.fed(first) == Ok::<Yard, ExprErrorView>(y2));
    lemma_fed_operand(y2, b);
    assert(y2.with_operand(eb).operands =~= y3.operands);
    assert(y2.fed(b) == Ok::<Yard, ExprErrorView>(y3));
    if o1.rank() >= o2.rank() {
        let left = ExprView::binary(o1, ea, eb);
        let r3 = Yard { operands: seq![left], operators: none, expect: ExpectType::Operator };
        let y4 = Yard {
            operands: seq![left],
            operators: seq![second],
            expect: ExpectType::Operand,
        };
        let y5 = Yard {
            operands: seq![left, ec],
            operators: seq![second],
            expect: ExpectType::Operator,
        };
        let all = ExprView::binary(o2, left, ec);
        let y6 = Yard { operands: seq![all], operators: none, expect: ExpectType::Operator };
        assert(y3.yields_to(o2.rank()));
        assert(y3.reduced().operands =~= r3.operands);
        assert(y3.reduced().operators =~= r3.operators);
        assert(r3.settled(o2.rank()) == r3);
        assert(y3.settled(o2.rank()) == r3);
        assert(r3.with_operator(second).operators =~= y4.operators);
        assert(y3.fed(second) == Ok::<Yard, ExprErrorView>(y4));
        lemma_fed_operand(y4, c);
        assert(y4.with_operand(ec).operands =~= y5.operands);
        assert(y4.fed(c) == Ok::<Yard, ExprErrorView>(y5));
        assert(y5.reduced().operands =~= y6.operands);
        assert(y5.reduced().operators =~= y6.operators);
        assert(y6.drained() == Ok::<ExprView, ExprErrorView>(all));
        assert(y5.drained() == Ok::<ExprView, ExprErrorView>(all));
        assert(y5.shunted(tokens, 5) == Ok::<Yard, ExprErrorView>(y5));
        assert(y4.shunted(tokens, 4) == Ok::<Yard, ExprErrorView>(y5));
        assert(y3.shunted(tokens, 3) == Ok::<Yard, ExprErrorView>(y5));
        assert(y2.shunted(tokens, 2) == Ok::<Yard, ExprErrorView>(y5));
        assert(y1.shunted(tokens, 1) == Ok::<Yard, ExprErrorView>(y5));
        assert(y0.shunted(tokens, 0) == Ok::<Yard, ExprErrorView>(y5));
    } else {
        let right = ExprView::binary(o2, eb, ec);
        let y4 = Yard {
            operands: seq![ea, eb],
            operators: seq![first, second],
            expect: ExpectType::Operand,
        };
        let y5 = Yard {
            operands: seq![ea, eb, ec],
            operators: seq![first, second],
            expect: ExpectType::Operator,
        };
        let y6 = Yard {
            operands: seq![ea, right],
            operators: seq![first],
            expect: ExpectType::Operator,
        };
        let all = ExprView::binary(o1, ea, right);
        let y7 = Yard { operands: seq![all], operators: none, expect: ExpectType::Operator };
        assert(!y3.yields_to(o2.rank()));
        assert(y3.settled(o2.rank()) == y3);
        assert(y3.with_operator(second).operators =~= y4.operators);
        assert(y3.fed(second) == Ok::<Yard, ExprErrorView>(y4));
        lemma_fed_operand(y4, c);
        assert(y4.with_operand(ec).operands =~= y5.operands);
        assert(y4.fed(c) == Ok::<Yard, ExprErrorView>(y5));
        assert(y5.reduced().operands =~= y6.operands);
        assert(y5.reduced().operators =~= y6.operators);
        assert(y6.reduced().operands =~= y7.operands);
        assert(y6.reduced().operators =~= y7.operators);
        assert(y7.drained() == Ok::<ExprView, ExprErrorView>(all));
        assert(y6.drained() == Ok::<ExprView, ExprErrorView>(all));
        assert(y5.drained() == Ok::<ExprView, ExprErrorView>(all));
        assert(y5.shunted(tokens, 5) == Ok::<Yard, ExprErrorView>(y5));
        assert(y4.shunted(tokens, 4) == Ok::<Yard, ExprErrorView>(y5));
        assert(y3.shunted(tokens, 3) == Ok::<Yard, ExprErrorView>(y5));
        assert(y2.shunted(tokens, 2) == Ok::<Yard, ExprErrorView>(y5));
        assert(y1.shunted(tokens, 1) == Ok::<Yard, ExprErrorView>(y5));
        assert(y0.shunted(tokens, 0) == Ok::<Yard, ExprErrorView>(y5));
    }
}

/// A unary operator binds tighter than any binary one: in `unary a op b`,
/// the unary operator takes `a` alone.
pub proof fn lemma_unary_binds_tighter(
    unary: TokenView,
    a: TokenView,
    op: TokenView,
    b: TokenView,
    after: TokenView,
)
    requires
        unary.class is Unary,
        is_operand(a),
        op.class is Operator,
        is_operand(b),
    ensures
        expr_spec(seq![unary, a, op, b], after) == Ok::<Option<ExprView>, ExprErrorView>(
            Some(
                ExprView::binary(
                    op.class->Operator_0,
                    ExprView::unary(unary.class->Unary_0, operand_of(a)),
                    operand_of(b),
                ),
            ),
        ),
{
    let tokens = seq![unary, a, op, b];
    let o = op.class->Operator_0;
    let u = unary.class->Unary_0;
    let (ea, eb) = (operand_of(a), operand_of(b));
    let none = Seq::<TokenView>::empty();
    let nothing = Seq::<ExprView>::empty();
    let y0 = Yard::start();
    let y1 = Yard { operands: nothing, operators: seq![unary], expect: ExpectType::Operand };
    let y2 = Yard { operands: seq![ea], operators: seq![unary], expect: ExpectType::Operator };
    let left = ExprView::unary(u, ea);
    let r2 = Yard { operands: seq![left], operators: none, expect: ExpectType::Operator };
    let y3 = Yard { operands: seq![left], operators: seq![op], expect: ExpectType::Operand };
    let y4 = Yard { operands: seq![left, eb], operators: seq![op], expect: ExpectType::Operator };
    let all = ExprView::binary(o, left, eb);
    let y5 = Yard { operands: seq![all], operators: none, expect: ExpectType::Operator };
    assert(y0.with_operator(unary).operators =~= y1.operators);
    assert(y0.fed(unary) == Ok::<Yard, ExprErrorView>(y1));
    lemma_fed_operand(y1, a);
    assert(y1.with_operand(ea).operands =~= y2.operands);
    assert(y1.fed(a) == Ok::<Yard, ExprErrorView>(y2));
    assert(y2.yields_to(o.rank()));
    assert(y2.reduced().operands =~= r2.operands);
    assert(y2.reduced().operators =~= r2.operators);
    assert(r2.settled(o.rank()) == r2);
    assert(y2.settled(o.rank()) == r2);
    assert(r2.with_operator(op).operators =~= y3.operators);
    assert(y2.fed(op) == Ok::<Yard, ExprErrorView>(y3));
    lemma_fed_operand(y3, b);
    assert(y3.with_operand(eb).operands =~= y4.operands);
    assert(y3.fed(b) == Ok::<Yard, ExprErrorView>(y4));
    assert(y4.reduced().operands =~= y5.operands);
    assert(y4.reduced().operators =~= y5.operators);
    assert(y5.drained() == Ok::<ExprView, ExprErrorView>(all));
    assert(y4.drained() == Ok::<ExprView, ExprErrorView>(all));
    assert(y4.shunted(tokens, 4) == Ok::<Yard, ExprErrorView>(y4));
    assert(y3.shunted(tokens, 3) == Ok::<Yard, ExprErrorView>(y4));
    assert(y2.shunted(tokens, 2) == Ok::<Yard, ExprErrorView>(y4));
    assert(y1.shunted(tokens, 1) == Ok::<Yard, ExprErrorView>(y4));
    assert(y0.shunted(tokens, 0) == Ok::<Yard, ExprErrorView>(y4));
}

/// An opening parenthesis that nothing closes is reported at that
/// parenthesis: where parentheses are still pending at the end of an
/// expression, the error is the latest of them.
pub proof fn lemma_unclosed_parenthesis(yard: Yard, at: int)
    requires
        0 <= at < yard.operators.len(),
        yard.operators[at].class is Lparen,
        forall|i: int|
            at < i < yard.operators.len() ==> !((#[trigger] yard.operators[i]).class is Lparen),
    ensures
        yard.drained() == Err::<ExprView, ExprErrorView>(
            ExprErrorView::UnterminatedParenthesis(yard.operators[at]),
        ),
    decreases yard.operators.len(),
{
    if at < yard.operators.len() - 1 {
        let next = yard.reduced();
        assert(!(yard.operators[yard.operators.len() - 1].class is Lparen));
        assert(next.operators == yard.operators.drop_last());
        assert forall|i: int| at < i < next.operators.len() implies !((
        #[trigger] next.operators[i]).class is Lparen) by {
            assert(next.operators[i] == yard.operators[i]);
        }
        lemma_unclosed_parenthesis(next, at);
    }
}

/// A block that the end of the file cuts short is reported at its opening
/// brace: where the statements of a block are gathered up to the end of the
/// file, the last error is that the block is unterminated, with the brace
/// that opened it.
pub proof fn lemma_unterminated_block(tokens: Seq<TokenView>, open: TokenView, so_far: Gathered)
    requires
        0 <= so_far.pos <= tokens.len(),
        tokens.len() > 0,
        tokens.last().class is Eof,
        !(token_at(tokens, items_spec(tokens, open, so_far).pos).class is Rbrace),
    ensures
        items_spec(tokens, open, so_far).errors.len() > 0,
        items_spec(tokens, open, so_far).errors.last() == StmtErrorView::UnterminatedBlock(open),
    decreases tokens.len() - so_far.pos,
{
    let pos = so_far.pos;
    if !(token_at(tokens, pos).class is Rbrace) && pos < tokens.len() && !(tokens[pos].class
        is Eof) {
        lemma_block_advances(tokens, pos);
        lemma_unterminated_block(tokens, open, so_far.with(block_spec(tokens, pos)));
    }
}


/// Whether the tokens can be the run of one plain statement: there is at
/// least one, none of them ends a statement, and the first does not open a
/// loop.
pub open spec fn plain_run(tokens: Seq<TokenView>) -> bool {
    &&& tokens.len() > 0
    &&& tokens[0].class != TokenTypeView::Keyword(Keyword::While)
    &&& forall|i: int| 0 <= i < tokens.len() ==> !ends_statement((#[trigger] tokens[i]).class)
}

proof fn lemma_statement_end_run(tokens: Seq<TokenView>, from: int, to: int)
    requires
        0 <= from <= to < tokens.len(),
        forall|i: int| from <= i < to ==> !ends_statement((#[trigger] tokens[i]).class),
        ends_statement(tokens[to].class),
    ensures
        statement_end(tokens, from) == to,
    decreases to - from,
{
    if from < to {
        assert(!ends_statement(tokens[from].class));
        lemma_statement_end_run(tokens, from + 1, to);
    }
}

/// The parse of one plain statement inside a run of tokens: the statement
/// that the run up to the next statement end writes, or its error.
proof fn lemma_plain_statement(tokens: Seq<TokenView>, from: int, run: Seq<TokenView>)
    requires
        plain_run(run),
        0 <= from,
        from + run.len() < tokens.len(),
        tokens.subrange(from, from + run.len()) == run,
        ends_statement(tokens[from + run.len()].class),
    ensures
        block_spec(tokens, from) == (Parsed {
            result: match statement_spec(run, tokens[from + run.len()]) {
                Ok(stmt) => Ok(Some(stmt)),
                Err(error) => Err(seq![error]),
            },
            pos: from + run.len(),
        }),
{
    let to = from + run.len();
    assert(tokens[from] == run[0]);
    assert(!ends_statement(run[0].class));
    assert forall|i: int| from + 1 <= i < to implies !ends_statement(
        (#[trigger] tokens[i]).class,
    ) by {
        assert(tokens[i] == run[i - from]);
    }
    lemma_statement_end_run(tokens, from + 1, to);
}

/// Errors do not cascade and are not swallowed: two malformed plain
/// statements with a statement end between them give exactly their two
/// errors, in order.
pub proof fn lemma_two_malformed_statements(
    first: Seq<TokenView>,
    end: TokenView,
    second: Seq<TokenView>,
    eof: TokenView,
)
    requires
        plain_run(first),
        plain_run(second),
        end.class is StmtEnd,
        eof.class is Eof,
        statement_spec(first, end) is Err,
        statement_spec(second, eof) is Err,
    ensures
        parse_spec(first + seq![end] + second + seq![eof]) == Err::<
            Seq<StmtView>,
            Seq<StmtErrorView>,
        >(seq![statement_spec(first, end)->Err_0, statement_spec(second, eof)->Err_0]),
{
    let tokens = first + seq![end] + second + seq![eof];
    let n1 = first.len() as int;
    let n2 = second.len() as int;
    let e1 = statement_spec(first, end)->Err_0;
    let e2 = statement_spec(second, eof)->Err_0;
    let none = Seq::<StmtView>::empty();
    assert(tokens.len() == n1 + n2 + 2);
    assert(tokens[n1] == end);
    assert(tokens[n1 + 1 + n2] == eof);
    assert(tokens.subrange(0, n1) =~= first);
    assert(tokens.subrange(n1 + 1, n1 + 1 + n2) =~= second);
    let g0 = Gathered { stmts: none, errors: Seq::empty(), pos: 0 };
    let g1 = Gathered { stmts: none, errors: seq![e1], pos: n1 };
    let g2 = Gathered { stmts: none, errors: seq![e1], pos: n1 + 1 };
    let g3 = Gathered { stmts: none, errors: seq![e1, e2], pos: n1 + 1 + n2 };
    lemma_plain_statement(tokens, 0, first);
    assert(tokens[0] == first[0]);
    assert(!ends_statement(first[0].class));
    assert(g0.with(block_spec(tokens, 0)).errors =~= g1.errors);
    assert(g0.with(block_spec(tokens, 0)) == g1);
    assert(block_spec(tokens, n1) == (Parsed { result: Ok(None), pos: n1 + 1 }));
    assert(g1.with(block_spec(tokens, n1)) == g2);
    lemma_plain_statement(tokens, n1 + 1, second);
    assert(tokens[n1 + 1] == second[0]);
    assert(!ends_statement(second[0].class));
    assert(g2.with(block_spec(tokens, n1 + 1)).errors =~= g3.errors);
    assert(g2.with(block_spec(tokens, n1 + 1)) == g3);
    assert(program_spec(tokens, g3) == g3);
    assert(program_spec(tokens, g2) == g3);
    assert(program_spec(tokens, g1) == g3);
    assert(program_spec(tokens, g0) == g3);
}

} // verus!

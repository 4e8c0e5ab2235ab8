//! The abstract machine that runs a program, as a mathematical model: its
//! state, and the one transition that takes a state to the next.
//!
//! The machine keeps a stack of work still to do and a stack of values. A
//! transition takes one item of work off the stack and deals with it. What
//! the machine cannot do itself it asks of its host: printing, reporting an
//! error, and the arithmetic and decimal conversion of binary32 numbers.

use crate::errors::LiteralOpError;
use crate::expr::ExprView;
use crate::stmt::StmtView;
use crate::token::{is_decimal, Operator, Unary};
use crate::value::{LiteralView, OutcomeView, ReplyView, RequestView};
use vstd::prelude::*;

verus! {

/// One item of work.
pub enum WorkView {
    /// Run the statement.
    Stmt(StmtView),
    /// Leave the innermost scope.
    Leave,
    /// Evaluate the condition of the loop, then test it.
    Loop(ExprView, Seq<StmtView>),
    /// Take the value of the condition: run the body once more and come
    /// back, or leave the loop.
    Test(ExprView, Seq<StmtView>),
    /// Evaluate the expression; its value goes on the stack of values.
    Eval(ExprView),
    /// Apply the operator to the two latest values, the right operand last.
    Apply(Operator),
    /// Apply the operator to the two latest values, the left operand last.
    Flipped(Operator),
    /// Apply the unary operator to the latest value.
    Unary(Unary),
    /// Print the latest value.
    Print,
    /// Print the latest value where the machine echoes, else drop it.
    Echo,
    /// Bind the name in the innermost scope to the latest value.
    Bind(Seq<char>),
    /// Give the nearest binding of the name the latest value.
    Rebind(Seq<char>),
    /// Keep the latest value as the result of the evaluation.
    Return,
}

impl WorkView {
    /// Whether the item is part of the evaluation of an expression.
    pub open spec fn evaluates(self) -> bool {
        self is Eval || self is Apply || self is Flipped || self is Unary
    }

    /// Whether the item takes the value of an expression and ends the
    /// statement that the expression belongs to.
    pub open spec fn consumes(self) -> bool {
        self is Print || self is Echo || self is Bind || self is Rebind || self is Test
            || self is Return
    }
}

/// What the host has to do after a transition.
pub enum ActionView {
    /// Nothing.
    Continue,
    /// Write the text and a line end to the output.
    Print(Seq<char>),
    /// Report that the statement was dropped because its expression could
    /// not be evaluated.
    Failed(LiteralOpError),
    /// Report that the statement was dropped because no scope holds the
    /// variable that it assigns to.
    Undefined(Seq<char>),
    /// Answer the request.
    Ask(RequestView),
    /// Nothing: the machine has no work left.
    Done,
}

/// The state of the machine.
pub struct Machine {
    /// The scope chain: the global scope first, the innermost last.
    pub scopes: Seq<Map<Seq<char>, LiteralView>>,
    /// Whether the value of an expression statement is printed.
    pub echo: bool,
    /// The work still to do; the item to do next is the last.
    pub work: Seq<WorkView>,
    /// The values of the expression under evaluation, the latest last.
    pub values: Seq<LiteralView>,
    /// The request that the host has not answered yet.
    pub waiting: Option<RequestView>,
    /// The value of the expression that was evaluated on its own last.
    pub result: Option<LiteralView>,
}

/// A transition: the next state, and what the host has to do.
pub struct Stepped {
    pub machine: Machine,
    pub action: ActionView,
}

/// The value of a name: that of the innermost scope that binds it.
pub open spec fn lookup(scopes: Seq<Map<Seq<char>, LiteralView>>, name: Seq<char>) -> Option<
    LiteralView,
>
    decreases scopes.len(),
{
    if scopes.len() == 0 {
        None
    } else if scopes.last().contains_key(name) {
        Some(scopes.last()[name])
    } else {
        lookup(scopes.drop_last(), name)
    }
}

/// The index of the innermost scope that binds a name.
pub open spec fn holder(scopes: Seq<Map<Seq<char>, LiteralView>>, name: Seq<char>) -> Option<int>
    decreases scopes.len(),
{
    if scopes.len() == 0 {
        None
    } else if scopes.last().contains_key(name) {
        Some(scopes.len() - 1)
    } else {
        holder(scopes.drop_last(), name)
    }
}

/// The work of running statements one after the other: the first statement
/// is done first, so it comes last.
pub open spec fn staged(stmts: Seq<StmtView>) -> Seq<WorkView> {
    Seq::new(stmts.len(), |i: int| WorkView::Stmt(stmts[stmts.len() - 1 - i]))
}

/// The work that is left when a statement is dropped: the evaluation under
/// way is taken off, and with it the item that waits for its value.
pub open spec fn unwound(work: Seq<WorkView>) -> Seq<WorkView>
    decreases work.len(),
{
    if work.len() == 0 {
        work
    } else if work.last().evaluates() {
        unwound(work.drop_last())
    } else if work.last().consumes() {
        work.drop_last()
    } else {
        work
    }
}

/// Whether the work fits a stack of `have` values: each item finds the
/// values that it takes, and between statements no value is left.
pub open spec fn typed(work: Seq<WorkView>, have: int) -> bool
    decreases work.len(),
{
    if work.len() == 0 {
        have == 0
    } else {
        let rest = work.drop_last();
        match work.last() {
            WorkView::Eval(_) => typed(rest, have + 1),
            WorkView::Apply(_) => have >= 2 && typed(rest, have - 1),
            WorkView::Flipped(_) => have >= 2 && typed(rest, have - 1),
            WorkView::Unary(_) => have >= 1 && typed(rest, have),
            WorkView::Stmt(_) => have == 0 && typed(rest, 0),
            WorkView::Leave => have == 0 && typed(rest, 0),
            WorkView::Loop(_, _) => have == 0 && typed(rest, 0),
            _ => have == 1 && typed(rest, 0),
        }
    }
}

/// How many scopes the work will leave.
pub open spec fn leaves(work: Seq<WorkView>) -> nat
    decreases work.len(),
{
    if work.len() == 0 {
        0
    } else {
        leaves(work.drop_last()) + if work.last() is Leave {
            1nat
        } else {
            0nat
        }
    }
}

impl Machine {
    /// A machine without work, over a scope chain.
    pub open spec fn started(echo: bool, scopes: Seq<Map<Seq<char>, LiteralView>>) -> Machine {
        Machine {
            scopes,
            echo,
            work: Seq::empty(),
            values: Seq::empty(),
            waiting: None,
            result: None,
        }
    }

    /// A machine without work, over one global scope.
    pub open spec fn fresh(echo: bool, global: Map<Seq<char>, LiteralView>) -> Machine {
        Machine::started(echo, seq![global])
    }

    /// How many values the work may count on: those on the stack, and the
    /// one that the host's answer will add.
    pub open spec fn supply(self) -> int {
        self.values.len() + if self.waiting is Some {
            1int
        } else {
            0int
        }
    }

    /// The depth that the scope chain had when the work was loaded: its depth
    /// now, less the scopes that the work will leave.
    pub open spec fn base(self) -> int {
        self.scopes.len() - leaves(self.work)
    }

    /// Well-formedness: the work fits the values, and the scope chain is as
    /// deep as it was when the work was loaded, plus the blocks that were
    /// entered and not left yet. It had one scope at least then.
    pub open spec fn wf(self) -> bool {
        &&& typed(self.work, self.supply())
        &&& self.base() >= 1
    }

    /// The state with one more item of work, to do next.
    pub open spec fn with_work(self, item: WorkView) -> Machine {
        Machine { work: self.work.push(item), ..self }
    }

    /// The state with one more value.
    pub open spec fn with_value(self, value: LiteralView) -> Machine {
        Machine { values: self.values.push(value), ..self }
    }

    /// The state with the latest `count` values taken off.
    pub open spec fn without_values(self, count: int) -> Machine {
        Machine { values: self.values.take(self.values.len() - count), ..self }
    }

    /// The machine goes on by itself.
    pub open spec fn going(self) -> Stepped {
        Stepped { machine: self, action: ActionView::Continue }
    }

    /// The machine waits for the host's answer.
    pub open spec fn asking(self, request: RequestView) -> Stepped {
        Stepped {
            machine: Machine { waiting: Some(request), ..self },
            action: ActionView::Ask(request),
        }
    }

    /// The statement under way is dropped.
    pub open spec fn failed(self, error: LiteralOpError) -> Stepped {
        Stepped {
            machine: Machine { work: unwound(self.work), values: Seq::empty(), ..self },
            action: ActionView::Failed(error),
        }
    }

    /// The state with a new innermost scope and the work of running the
    /// statements in it and leaving it again.
    pub open spec fn entered(self, body: Seq<StmtView>) -> Machine {
        Machine {
            scopes: self.scopes.push(Map::empty()),
            work: self.work.push(WorkView::Leave) + staged(body),
            ..self
        }
    }

    /// The state with the work of a statement added.
    pub open spec fn begun(self, stmt: StmtView) -> Machine {
        match stmt {
            StmtView::Expr(e) => self.with_work(WorkView::Echo).with_work(WorkView::Eval(e)),
            StmtView::Print(e) => self.with_work(WorkView::Print).with_work(WorkView::Eval(e)),
            StmtView::Assign(name, e) => self.with_work(WorkView::Bind(name)).with_work(
                WorkView::Eval(e),
            ),
            StmtView::Reassign(name, e) => self.with_work(WorkView::Rebind(name)).with_work(
                WorkView::Eval(e),
            ),
            StmtView::While(condition, body) => self.with_work(WorkView::Loop(condition, body)),
            StmtView::Block(body) => self.entered(body),
        }
    }

    /// The transition for an expression to evaluate.
    pub open spec fn evaluated(self, expr: ExprView) -> Stepped {
        match expr {
            ExprView::Literal(value) => self.with_value(value).going(),
            ExprView::Decimal(text) => if is_decimal(text) {
                self.asking(RequestView::Parse(text))
            } else {
                self.failed(LiteralOpError::InvalidTypeError)
            },
            ExprView::Ident(name) => match lookup(self.scopes, name) {
                Some(value) => self.with_value(value).going(),
                None => self.failed(LiteralOpError::UndefinedVariableError),
            },
            ExprView::Binary(op, left, right) => self.with_work(WorkView::Apply(op)).with_work(
                WorkView::Eval(*right),
            ).with_work(WorkView::Eval(*left)).going(),
            ExprView::Unary(op, operand) => self.with_work(WorkView::Unary(op)).with_work(
                WorkView::Eval(*operand),
            ).going(),
        }
    }

    /// The transition for what a binary operator came to.
    pub open spec fn applied(self, outcome: OutcomeView) -> Stepped {
        match outcome {
            OutcomeView::Value(value) => self.with_value(value).going(),
            OutcomeView::Error(error) => self.failed(error),
            OutcomeView::Whole(request) => self.asking(request),
            OutcomeView::Left(request, op, right) => self.with_value(right).with_work(
                WorkView::Flipped(op),
            ).asking(request),
            OutcomeView::Right(left, op, request) => self.with_value(left).with_work(
                WorkView::Apply(op),
            ).asking(request),
        }
    }

    /// The transition for a value to print: a float is shown by the host
    /// first, and `again` is the item that then prints its text.
    pub open spec fn printed(self, value: LiteralView, again: WorkView) -> Stepped {
        match value {
            LiteralView::Float(bits) => self.with_work(again).asking(RequestView::Show(bits)),
            _ => Stepped { machine: self, action: ActionView::Print(value.text().unwrap()) },
        }
    }

    /// The scope chain with the name bound to the value in the innermost
    /// scope.
    pub open spec fn bound(self, name: Seq<char>, value: LiteralView) -> Machine {
        Machine {
            scopes: self.scopes.update(
                self.scopes.len() - 1,
                self.scopes.last().insert(name, value),
            ),
            ..self
        }
    }

    /// The transition for a new value for an existing variable: the
    /// innermost scope that binds the name gets it; where none does, nothing
    /// changes and the host is told.
    pub open spec fn rebound(self, name: Seq<char>, value: LiteralView) -> Stepped {
        match holder(self.scopes, name) {
            Some(i) => Machine {
                scopes: self.scopes.update(i, self.scopes[i].insert(name, value)),
                ..self
            }.going(),
            None => Stepped { machine: self, action: ActionView::Undefined(name) },
        }
    }

    /// The transition of the machine: the next state, and what the host has
    /// to do.
    pub open spec fn step(self) -> Stepped {
        if self.waiting is Some {
            Stepped { machine: self, action: ActionView::Ask(self.waiting->Some_0) }
        } else if self.work.len() == 0 {
            Stepped { machine: self, action: ActionView::Done }
        } else {
            let rest = Machine { work: self.work.drop_last(), ..self };
            let n = self.values.len() as int;
            match self.work.last() {
                WorkView::Stmt(stmt) => rest.begun(stmt).going(),
                WorkView::Leave => Machine { scopes: rest.scopes.drop_last(), ..rest }.going(),
                WorkView::Loop(condition, body) => rest.with_work(
                    WorkView::Test(condition, body),
                ).with_work(WorkView::Eval(condition)).going(),
                WorkView::Test(condition, body) => if self.values[n - 1].is_truthy() {
                    rest.without_values(1).with_work(WorkView::Loop(condition, body)).entered(
                        body,
                    ).going()
                } else {
                    rest.without_values(1).going()
                },
                WorkView::Eval(expr) => rest.evaluated(expr),
                WorkView::Apply(op) => rest.without_values(2).applied(
                    self.values[n - 2].binary(op, self.values[n - 1]),
                ),
                WorkView::Flipped(op) => rest.without_values(2).applied(
                    self.values[n - 1].binary(op, self.values[n - 2]),
                ),
                WorkView::Unary(Unary::Not) => rest.without_values(1).with_value(
                    LiteralView::Bool(!self.values[n - 1].is_truthy()),
                ).going(),
                WorkView::Unary(Unary::Neg) => match self.values[n - 1].negate() {
                    Ok(value) => rest.without_values(1).with_value(value).going(),
                    Err(error) => rest.without_values(1).failed(error),
                },
                WorkView::Print => rest.without_values(1).printed(
                    self.values[n - 1],
                    WorkView::Print,
                ),
                WorkView::Echo => if self.echo {
                    rest.without_values(1).printed(self.values[n - 1], WorkView::Echo)
                } else {
                    rest.without_values(1).going()
                },
                WorkView::Bind(name) => rest.without_values(1).bound(
                    name,
                    self.values[n - 1],
                ).going(),
                WorkView::Rebind(name) => rest.without_values(1).rebound(
                    name,
                    self.values[n - 1],
                ),
                WorkView::Return => Machine {
                    result: Some(self.values[n - 1]),
                    ..rest.without_values(1)
                }.going(),
            }
        }
    }

    /// The state after the host's answer: its value goes on the stack of
    /// values. An answer that nothing asked for, or of the wrong kind,
    /// changes nothing.
    pub open spec fn answered(self, reply: ReplyView) -> Machine {
        match self.waiting {
            Some(request) => match request.answered(reply) {
                Some(value) => Machine { waiting: None, ..self.with_value(value) },
                None => self,
            },
            None => self,
        }
    }

    /// The state with the work that was under way abandoned: no work and no
    /// values. The scope chain stays as it stands.
    pub open spec fn reset(self) -> Machine {
        Machine {
            scopes: self.scopes,
            echo: self.echo,
            work: Seq::empty(),
            values: Seq::empty(),
            waiting: None,
            result: self.result,
        }
    }

    /// The state that runs a program in the scope chain as it stands: what
    /// the program declares at its top level goes to the innermost scope.
    pub open spec fn loaded(self, program: Seq<StmtView>) -> Machine {
        Machine { work: staged(program), ..self.reset() }
    }

    /// The state that evaluates an expression on its own, against the scope
    /// chain as it stands; the value will be the machine's result.
    pub open spec fn solving(self, expr: ExprView) -> Machine {
        Machine {
            work: seq![WorkView::Return, WorkView::Eval(expr)],
            result: None,
            ..self.reset()
        }
    }
}


/// What is under an item that was pushed is the work as it was.
pub proof fn lemma_pushed(work: Seq<WorkView>, item: WorkView)
    ensures
        work.push(item).drop_last() == work,
        work.push(item).last() == item,
        leaves(work.push(item)) == leaves(work) + if item is Leave {
            1nat
        } else {
            0nat
        },
{
    assert(work.push(item).drop_last() =~= work);
}

/// Whether work under a pushed item fits the values decides whether the
/// whole does.
pub proof fn lemma_typed_pushed(work: Seq<WorkView>, item: WorkView, have: int)
    ensures
        typed(work.push(item), have) == match item {
            WorkView::Eval(_) => typed(work, have + 1),
            WorkView::Apply(_) => have >= 2 && typed(work, have - 1),
            WorkView::Flipped(_) => have >= 2 && typed(work, have - 1),
            WorkView::Unary(_) => have >= 1 && typed(work, have),
            WorkView::Stmt(_) => have == 0 && typed(work, 0),
            WorkView::Leave => have == 0 && typed(work, 0),
            WorkView::Loop(_, _) => have == 0 && typed(work, 0),
            _ => have == 1 && typed(work, 0),
        },
{
    lemma_pushed(work, item);
}

/// Statements that were staged fit an empty stack of values wherever the
/// work under them does, and leave no scope.
pub proof fn lemma_staged(work: Seq<WorkView>, stmts: Seq<StmtView>)
    ensures
        typed(work + staged(stmts), 0) == typed(work, 0),
        leaves(work + staged(stmts)) == leaves(work),
    decreases stmts.len(),
{
    if stmts.len() == 0 {
        assert(work + staged(stmts) =~= work);
    } else {
        let all = work + staged(stmts);
        assert(all.drop_last() =~= work + staged(stmts.skip(1)));
        assert(all.last() == WorkView::Stmt(stmts[0]));
        lemma_staged(work, stmts.skip(1));
    }
}

/// Dropping a statement leaves work that fits an empty stack of values, and
/// leaves the same scopes.
pub proof fn lemma_unwound(work: Seq<WorkView>, have: int)
    requires
        typed(work, have),
    ensures
        typed(unwound(work), 0),
        leaves(unwound(work)) == leaves(work),
    decreases work.len(),
{
    if work.len() > 0 {
        let rest = work.drop_last();
        match work.last() {
            WorkView::Eval(_) => lemma_unwound(rest, have + 1),
            WorkView::Apply(_) => lemma_unwound(rest, have - 1),
            WorkView::Flipped(_) => lemma_unwound(rest, have - 1),
            WorkView::Unary(_) => lemma_unwound(rest, have),
            _ => {},
        }
    }
}

impl Machine {
    /// A machine that starts over a scope chain is well formed, and the
    /// depth of that chain is its base.
    pub proof fn lemma_started_wf(echo: bool, scopes: Seq<Map<Seq<char>, LiteralView>>)
        requires
            scopes.len() > 0,
        ensures
            Machine::started(echo, scopes).wf(),
            Machine::started(echo, scopes).base() == scopes.len(),
    {
    }

    /// A fresh machine is well formed.
    pub proof fn lemma_fresh_wf(echo: bool, global: Map<Seq<char>, LiteralView>)
        ensures
            Machine::fresh(echo, global).wf(),
            Machine::fresh(echo, global).base() == 1,
    {
    }

    proof fn lemma_failed_wf(self, error: LiteralOpError, have: int)
        requires
            self.waiting is None,
            typed(self.work, have),
            self.base() >= 1,
        ensures
            self.failed(error).machine.wf(),
            self.failed(error).machine.base() == self.base(),
    {
        lemma_unwound(self.work, have);
    }

    proof fn lemma_applied_wf(self, outcome: OutcomeView)
        requires
            self.waiting is None,
            typed(self.work, self.values.len() as int + 1),
            self.base() >= 1,
        ensures
            self.applied(outcome).machine.wf(),
            self.applied(outcome).machine.base() == self.base(),
    {
        let have = self.values.len() as int;
        match outcome {
            OutcomeView::Value(value) => {},
            OutcomeView::Error(error) => {
                self.lemma_failed_wf(error, have + 1);
            },
            OutcomeView::Whole(request) => {},
            OutcomeView::Left(request, op, right) => {
                lemma_pushed(self.work, WorkView::Flipped(op));
                lemma_typed_pushed(self.work, WorkView::Flipped(op), have + 2);
            },
            OutcomeView::Right(left, op, request) => {
                lemma_pushed(self.work, WorkView::Apply(op));
                lemma_typed_pushed(self.work, WorkView::Apply(op), have + 2);
            },
        }
    }

    proof fn lemma_printed_wf(self, value: LiteralView, again: WorkView)
        requires
            self.waiting is None,
            self.values.len() == 0,
            typed(self.work, 0),
            self.base() >= 1,
            again is Print || again is Echo,
        ensures
            self.printed(value, again).machine.wf(),
            self.printed(value, again).machine.base() == self.base(),
    {
        lemma_pushed(self.work, again);
        lemma_typed_pushed(self.work, again, 1);
    }

    proof fn lemma_entered_wf(self, body: Seq<StmtView>)
        requires
            self.waiting is None,
            self.values.len() == 0,
            typed(self.work, 0),
            self.base() >= 1,
        ensures
            self.entered(body).wf(),
            self.entered(body).base() == self.base(),
    {
        lemma_pushed(self.work, WorkView::Leave);
        lemma_typed_pushed(self.work, WorkView::Leave, 0);
        lemma_staged(self.work.push(WorkView::Leave), body);
    }

    proof fn lemma_consumer_wf(self, consumer: WorkView, expr: ExprView)
        requires
            self.waiting is None,
            self.values.len() == 0,
            typed(self.work, 0),
            self.base() >= 1,
            consumer.consumes(),
        ensures
            self.with_work(consumer).with_work(WorkView::Eval(expr)).wf(),
            self.with_work(consumer).with_work(WorkView::Eval(expr)).base() == self.base(),
    {
        let first = self.work.push(consumer);
        lemma_pushed(self.work, consumer);
        lemma_typed_pushed(self.work, consumer, 1);
        lemma_pushed(first, WorkView::Eval(expr));
        lemma_typed_pushed(first, WorkView::Eval(expr), 0);
    }

    proof fn lemma_begun_wf(self, stmt: StmtView)
        requires
            self.waiting is None,
            self.values.len() == 0,
            typed(self.work, 0),
            self.base() >= 1,
        ensures
            self.begun(stmt).wf(),
            self.begun(stmt).base() == self.base(),
    {
        match stmt {
            StmtView::Expr(e) => {
                self.lemma_consumer_wf(WorkView::Echo, e);
            },
            StmtView::Print(e) => {
                self.lemma_consumer_wf(WorkView::Print, e);
            },
            StmtView::Assign(name, e) => {
                self.lemma_consumer_wf(WorkView::Bind(name), e);
            },
            StmtView::Reassign(name, e) => {
                self.lemma_consumer_wf(WorkView::Rebind(name), e);
            },
            StmtView::While(condition, body) => {
                lemma_pushed(self.work, WorkView::Loop(condition, body));
                lemma_typed_pushed(self.work, WorkView::Loop(condition, body), 0);
            },
            StmtView::Block(body) => {
                self.lemma_entered_wf(body);
            },
        }
    }

    proof fn lemma_evaluated_wf(self, expr: ExprView)
        requires
            self.waiting is None,
            typed(self.work, self.values.len() as int + 1),
            self.base() >= 1,
        ensures
            self.evaluated(expr).machine.wf(),
            self.evaluated(expr).machine.base() == self.base(),
    {
        let have = self.values.len() as int;
        match expr {
            ExprView::Ident(name) => {
                self.lemma_failed_wf(LiteralOpError::UndefinedVariableError, have + 1);
            },
            ExprView::Decimal(text) => {
                self.lemma_failed_wf(LiteralOpError::InvalidTypeError, have + 1);
            },
            ExprView::Binary(op, left, right) => {
                let first = self.work.push(WorkView::Apply(op));
                let second = first.push(WorkView::Eval(*right));
                lemma_pushed(self.work, WorkView::Apply(op));
                lemma_pushed(first, WorkView::Eval(*right));
                lemma_pushed(second, WorkView::Eval(*left));
                lemma_typed_pushed(self.work, WorkView::Apply(op), have + 2);
                lemma_typed_pushed(first, WorkView::Eval(*right), have + 1);
                lemma_typed_pushed(second, WorkView::Eval(*left), have);
            },
            ExprView::Unary(op, operand) => {
                let first = self.work.push(WorkView::Unary(op));
                lemma_pushed(self.work, WorkView::Unary(op));
                lemma_pushed(first, WorkView::Eval(*operand));
                lemma_typed_pushed(self.work, WorkView::Unary(op), have + 1);
                lemma_typed_pushed(first, WorkView::Eval(*operand), have);
            },
            _ => {},
        }
    }

    /// Every transition keeps the machine well formed: no item of work ever
    /// misses a value, and the scope chain stays as deep as it was when the
    /// work was loaded, plus the blocks entered and not left yet.
    pub proof fn lemma_step_wf(self)
        requires
            self.wf(),
        ensures
            self.step().machine.wf(),
            self.step().machine.base() == self.base(),
    {
        if self.waiting is None && self.work.len() > 0 {
            let rest = Machine { work: self.work.drop_last(), ..self };
            let n = self.values.len() as int;
            let item = self.work.last();
            assert(rest.work.push(item) =~= self.work);
            lemma_pushed(rest.work, item);
            lemma_typed_pushed(rest.work, item, n);
            match item {
                WorkView::Stmt(stmt) => {
                    rest.lemma_begun_wf(stmt);
                },
                WorkView::Leave => {},
                WorkView::Loop(condition, body) => {
                    rest.lemma_consumer_wf(WorkView::Test(condition, body), condition);
                },
                WorkView::Test(condition, body) => {
                    let looping = rest.without_values(1).with_work(
                        WorkView::Loop(condition, body),
                    );
                    lemma_pushed(rest.work, WorkView::Loop(condition, body));
                    lemma_typed_pushed(rest.work, WorkView::Loop(condition, body), 0);
                    looping.lemma_entered_wf(body);
                },
                WorkView::Eval(expr) => {
                    rest.lemma_evaluated_wf(expr);
                },
                WorkView::Apply(op) => {
                    rest.without_values(2).lemma_applied_wf(
                        self.values[n - 2].binary(op, self.values[n - 1]),
                    );
                },
                WorkView::Flipped(op) => {
                    rest.without_values(2).lemma_applied_wf(
                        self.values[n - 1].binary(op, self.values[n - 2]),
                    );
                },
                WorkView::Unary(op) => {
                    rest.without_values(1).lemma_failed_wf(LiteralOpError::InvalidTypeError, n);
                },
                WorkView::Print => {
                    rest.without_values(1).lemma_printed_wf(self.values[n - 1], WorkView::Print);
                },
                WorkView::Echo => {
                    rest.without_values(1).lemma_printed_wf(self.values[n - 1], WorkView::Echo);
                },
                WorkView::Bind(name) => {},
                WorkView::Rebind(name) => {
                    lemma_holder_bounds(self.scopes, name);
                },
                WorkView::Return => {},
            }
        }
    }

    /// The host's answer keeps the machine well formed.
    pub proof fn lemma_answered_wf(self, reply: ReplyView)
        requires
            self.wf(),
        ensures
            self.answered(reply).wf(),
            self.answered(reply).base() == self.base(),
    {
    }

    /// Loading a program gives a well-formed machine over the same scope
    /// chain, whose depth is the base from then on.
    pub proof fn lemma_loaded_wf(self, program: Seq<StmtView>)
        requires
            self.wf(),
        ensures
            self.loaded(program).wf(),
            self.loaded(program).scopes == self.scopes,
            self.loaded(program).base() == self.scopes.len(),
    {
        lemma_staged(Seq::empty(), program);
        assert(Seq::<WorkView>::empty() + staged(program) =~= staged(program));
    }

    /// Loading an expression gives a well-formed machine over the same scope
    /// chain, whose depth is the base from then on.
    pub proof fn lemma_solving_wf(self, expr: ExprView)
        requires
            self.wf(),
        ensures
            self.solving(expr).wf(),
            self.solving(expr).scopes == self.scopes,
            self.solving(expr).base() == self.scopes.len(),
    {
        let none = Seq::<WorkView>::empty();
        let first = none.push(WorkView::Return);
        assert(first.push(WorkView::Eval(expr)) =~= seq![WorkView::Return, WorkView::Eval(expr)]);
        lemma_pushed(none, WorkView::Return);
        lemma_typed_pushed(none, WorkView::Return, 1);
        lemma_pushed(first, WorkView::Eval(expr));
        lemma_typed_pushed(first, WorkView::Eval(expr), 0);
    }
}

/// The scope that holds a name is one of the chain, and it binds the name.
pub proof fn lemma_holder_bounds(scopes: Seq<Map<Seq<char>, LiteralView>>, name: Seq<char>)
    ensures
        match holder(scopes, name) {
            Some(i) => 0 <= i < scopes.len() && scopes[i].contains_key(name) && lookup(
                scopes,
                name,
            ) == Some(scopes[i][name]),
            None => lookup(scopes, name) is None && forall|i: int|
                0 <= i < scopes.len() ==> !(#[trigger] scopes[i]).contains_key(name),
        },
    decreases scopes.len(),
{
    if scopes.len() > 0 && !scopes.last().contains_key(name) {
        lemma_holder_bounds(scopes.drop_last(), name);
        assert forall|i: int| 0 <= i < scopes.len() && holder(scopes, name) is None implies !(
        #[trigger] scopes[i]).contains_key(name) by {
            if i < scopes.len() - 1 {
                assert(scopes.drop_last()[i] == scopes[i]);
            }
        }
    }
}


impl Machine {
    /// Giving a new value to a name that no scope binds changes no scope and
    /// binds nothing: the host is told that the variable is undefined.
    pub proof fn lemma_reassign_miss(self, name: Seq<char>)
        requires
            self.waiting is None,
            self.work.len() > 0,
            self.work.last() == WorkView::Rebind(name),
            forall|i: int| 0 <= i < self.scopes.len() ==> !(#[trigger] self.scopes[i]).contains_key(
                name,
            ),
        ensures
            self.step().action == ActionView::Undefined(name),
            self.step().machine.scopes == self.scopes,
            lookup(self.step().machine.scopes, name) is None,
    {
        lemma_holder_bounds(self.scopes, name);
    }

    /// A statement that gives a name a new value becomes the work of
    /// evaluating its expression and then rebinding the name.
    pub proof fn lemma_reassign_begins(self, name: Seq<char>, expr: ExprView)
        requires
            self.waiting is None,
            self.work.len() > 0,
            self.work.last() == WorkView::Stmt(StmtView::Reassign(name, expr)),
        ensures
            self.step().action == ActionView::Continue,
            self.step().machine.scopes == self.scopes,
            self.step().machine.work == self.work.drop_last().push(WorkView::Rebind(name)).push(
                WorkView::Eval(expr),
            ),
    {
    }

    /// No transition changes which names an outer scope binds: only the
    /// innermost scope ever gets a new name, and a scope only ever loses its
    /// names by being left.
    pub proof fn lemma_step_keeps_outer_names(self)
        requires
            self.wf(),
        ensures
            self.scopes.len() - 1 <= self.step().machine.scopes.len() <= self.scopes.len() + 1,
            forall|i: int|
                0 <= i < self.scopes.len() - 1 ==> (#[trigger] self.step().machine.scopes[i]).dom()
                    == self.scopes[i].dom(),
    {
        let next = self.step().machine;
        if self.waiting is None && self.work.len() > 0 {
            let n = self.values.len() as int;
            match self.work.last() {
                WorkView::Rebind(name) => {
                    lemma_holder_bounds(self.scopes, name);
                    match holder(self.scopes, name) {
                        Some(at) => {
                            assert(self.scopes[at].insert(name, self.values[n - 1]).dom()
                                =~= self.scopes[at].dom());
                        },
                        None => {},
                    }
                },
                _ => {},
            }
        }
    }

    /// Entering a block adds one empty scope, and leaving it takes that
    /// scope away again with all that was bound in it.
    pub proof fn lemma_block_scope(self, body: Seq<StmtView>)
        requires
            self.wf(),
            self.waiting is None,
            self.work.len() > 0,
            self.work.last() == WorkView::Stmt(StmtView::Block(body)),
        ensures
            self.step().machine.scopes == self.scopes.push(Map::empty()),
            self.step().machine.work == self.work.drop_last().push(WorkView::Leave) + staged(
                body,
            ),
            ({
                let leaving = Machine {
                    work: self.work.drop_last().push(WorkView::Leave),
                    ..self.step().machine
                };
                leaving.step().machine.scopes == self.scopes
            }),
    {
        let entered = self.step().machine;
        let leaving = Machine { work: self.work.drop_last().push(WorkView::Leave), ..entered };
        assert(self.scopes.push(Map::empty()).drop_last() =~= self.scopes);
    }
}

} // verus!

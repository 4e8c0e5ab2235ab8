//! The executor: the abstract machine in executable form.
//!
//! The host loads a program, then calls [`Executor::step`] until it answers
//! `Done`, and does after each call what the returned [`Action`] says.

use crate::errors::LiteralOpError;
use crate::expr::Expr;
use crate::machine::{holder, lookup, staged, unwound, ActionView, Machine, Stepped, WorkView};
use crate::scope::Scope;
use crate::stmt::{clone_stmts, stmt_views, Block, Stmt};
use crate::text::chars_of;
use crate::token::{read_decimal, Operator, Unary};
use crate::value::{Literal, LiteralView, Outcome, Reply, Request, RequestView};
use vstd::prelude::*;

verus! {

/// One item of the machine's work; [`WorkView`] says what each stands for.
#[derive(Debug)]
pub enum Work {
    Stmt(Stmt),
    Leave,
    Loop(Expr, Vec<Stmt>),
    Test(Expr, Vec<Stmt>),
    Eval(Expr),
    Apply(Operator),
    Flipped(Operator),
    Unary(Unary),
    Print,
    Echo,
    Bind(String),
    Rebind(String),
    Return,
}

impl View for Work {
    type V = WorkView;

    open spec fn view(&self) -> WorkView {
        match self {
            Work::Stmt(stmt) => WorkView::Stmt(stmt@),
            Work::Leave => WorkView::Leave,
            Work::Loop(condition, body) => WorkView::Loop(condition@, stmt_views(body@)),
            Work::Test(condition, body) => WorkView::Test(condition@, stmt_views(body@)),
            Work::Eval(expr) => WorkView::Eval(expr@),
            Work::Apply(op) => WorkView::Apply(*op),
            Work::Flipped(op) => WorkView::Flipped(*op),
            Work::Unary(op) => WorkView::Unary(*op),
            Work::Print => WorkView::Print,
            Work::Echo => WorkView::Echo,
            Work::Bind(name) => WorkView::Bind(name@),
            Work::Rebind(name) => WorkView::Rebind(name@),
            Work::Return => WorkView::Return,
        }
    }
}

/// What the host has to do after a transition.
#[derive(Debug, PartialEq)]
pub enum Action {
    /// Nothing: call `step` again.
    Continue,
    /// Write the text and a line end to the output.
    Print(String),
    /// Report that a statement was dropped because its expression could not
    /// be evaluated.
    Failed(LiteralOpError),
    /// Report that a statement was dropped because no scope holds the
    /// variable that it assigns to.
    Undefined(String),
    /// Answer the request with `answer`.
    Ask(Request),
    /// Nothing: the machine has no work left.
    Done,
}

impl View for Action {
    type V = ActionView;

    open spec fn view(&self) -> ActionView {
        match self {
            Action::Continue => ActionView::Continue,
            Action::Print(text) => ActionView::Print(text@),
            Action::Failed(error) => ActionView::Failed(*error),
            Action::Undefined(name) => ActionView::Undefined(name@),
            Action::Ask(request) => ActionView::Ask(request@),
            Action::Done => ActionView::Done,
        }
    }
}

/// The models of a chain of scopes.
pub open spec fn scope_views(scopes: Seq<Scope>) -> Seq<Map<Seq<char>, LiteralView>> {
    Seq::new(scopes.len(), |i: int| scopes[i]@)
}

/// The models of a stack of work.
pub open spec fn work_views(work: Seq<Work>) -> Seq<WorkView> {
    Seq::new(work.len(), |i: int| work[i]@)
}

/// The models of a stack of values.
pub open spec fn literal_views(values: Seq<Literal>) -> Seq<LiteralView> {
    Seq::new(values.len(), |i: int| values[i]@)
}

/// The model of a value that may be missing.
pub open spec fn literal_view(value: Option<Literal>) -> Option<LiteralView> {
    match value {
        Some(value) => Some(value@),
        None => None,
    }
}

spec fn request_view(request: Option<Request>) -> Option<RequestView> {
    match request {
        Some(request) => Some(request@),
        None => None,
    }
}

/// The machine that runs programs.
pub struct Executor {
    scopes: Vec<Scope>,
    print_expr_result: bool,
    work: Vec<Work>,
    values: Vec<Literal>,
    waiting: Option<Request>,
    result: Option<Literal>,
}

impl View for Executor {
    type V = Machine;

    closed spec fn view(&self) -> Machine {
        Machine {
            scopes: scope_views(self.scopes@),
            echo: self.print_expr_result,
            work: work_views(self.work@),
            values: literal_views(self.values@),
            waiting: request_view(self.waiting),
            result: literal_view(self.result),
        }
    }
}

impl Executor {
    spec fn scopes_wf(&self) -> bool {
        forall|i: int| 0 <= i < self.scopes@.len() ==> (#[trigger] self.scopes@[i]).wf()
    }

    /// Well-formedness: that of the machine's state and of every scope.
    pub closed spec fn wf(&self) -> bool {
        self@.wf() && self.scopes_wf()
    }

    /// A well-formed executor is a well-formed machine.
    pub proof fn lemma_wf(&self)
        requires
            self.wf(),
        ensures
            self@.wf(),
    {
    }

    /// A machine without work over the given global scope.
    /// `print_expr_result` says whether the value of an expression statement
    /// is printed.
    pub fn new(print_expr_result: bool, global: Scope) -> (executor: Self)
        requires
            global.wf(),
        ensures
            executor.wf(),
            executor@ == Machine::fresh(print_expr_result, global@),
    {
        let mut scopes: Vec<Scope> = Vec::new();
        scopes.push(global);
        let executor = Self {
            scopes,
            print_expr_result,
            work: Vec::new(),
            values: Vec::new(),
            waiting: None,
            result: None,
        };
        proof {
            let fresh = Machine::fresh(print_expr_result, global@);
            assert(executor@.scopes =~= fresh.scopes);
            assert(executor@.work =~= fresh.work);
            assert(executor@.values =~= fresh.values);
            Machine::lemma_fresh_wf(print_expr_result, global@);
        }
        executor
    }

    /// A machine without work over the given scope chain, the global scope
    /// first and the innermost last. What is loaded into it runs in the
    /// innermost scope.
    pub fn with_scopes(print_expr_result: bool, scopes: Vec<Scope>) -> (executor: Self)
        requires
            scopes@.len() > 0,
            forall|i: int| 0 <= i < scopes@.len() ==> (#[trigger] scopes@[i]).wf(),
        ensures
            executor.wf(),
            executor@ == Machine::started(print_expr_result, scope_views(scopes@)),
    {
        let executor = Self {
            scopes,
            print_expr_result,
            work: Vec::new(),
            values: Vec::new(),
            waiting: None,
            result: None,
        };
        proof {
            let started = Machine::started(print_expr_result, scope_views(scopes@));
            assert(executor@.work =~= started.work);
            assert(executor@.values =~= started.values);
            Machine::lemma_started_wf(print_expr_result, scope_views(scopes@));
        }
        executor
    }

    /// How many scopes the chain holds.
    pub fn depth(&self) -> (n: usize)
        ensures
            n == self@.scopes.len(),
    {
        self.scopes.len()
    }

    fn push_work(&mut self, item: Work)
        ensures
            final(self)@ == old(self)@.with_work(item@),
            final(self).scopes == old(self).scopes,
    {
        assert(work_views(self.work@.push(item)) =~= work_views(self.work@).push(item@));
        self.work.push(item);
    }

    fn push_value(&mut self, value: Literal)
        ensures
            final(self)@ == old(self)@.with_value(value@),
            final(self).scopes == old(self).scopes,
    {
        assert(literal_views(self.values@.push(value)) =~= literal_views(self.values@).push(
            value@,
        ));
        self.values.push(value);
    }

    fn pop_value(&mut self) -> (value: Literal)
        requires
            old(self).values@.len() > 0,
        ensures
            final(self)@ == old(self)@.without_values(1),
            value@ == old(self)@.values.last(),
            final(self).scopes == old(self).scopes,
            final(self).values@.len() == old(self).values@.len() - 1,
    {
        let ghost n = self.values@.len() as int;
        assert(literal_views(self.values@.drop_last()) =~= literal_views(self.values@).take(
            n - 1,
        ));
        self.values.pop().unwrap()
    }

    /// Makes the machine wait for the host's answer.
    fn ask(&mut self, request: Request) -> (action: Action)
        requires
            old(self).waiting is None,
        ensures
            (Stepped { machine: final(self)@, action: action@ }) == old(self)@.asking(request@),
            final(self).scopes == old(self).scopes,
    {
        let action = Action::Ask(request.clone());
        self.waiting = Some(request);
        action
    }

    /// Drops the statement under way.
    fn fail(&mut self, error: LiteralOpError) -> (action: Action)
        ensures
            (Stepped { machine: final(self)@, action: action@ }) == old(self)@.failed(error),
            final(self).scopes == old(self).scopes,
    {
        let ghost before = work_views(self.work@);
        let mut done = false;
        while !done
            invariant
                self.scopes == old(self).scopes,
                self.print_expr_result == old(self).print_expr_result,
                self.values == old(self).values,
                self.waiting == old(self).waiting,
                self.result == old(self).result,
                before == work_views(old(self).work@),
                !done ==> unwound(work_views(self.work@)) == unwound(before),
                done ==> work_views(self.work@) == unwound(before),
            decreases self.work@.len() + if done { 0int } else { 1int },
        {
            let ghost now = work_views(self.work@);
            if self.work.len() == 0 {
                done = true;
            } else {
                let evaluates = match &self.work[self.work.len() - 1] {
                    Work::Eval(_) => true,
                    Work::Apply(_) => true,
                    Work::Flipped(_) => true,
                    Work::Unary(_) => true,
                    _ => false,
                };
                let consumes = match &self.work[self.work.len() - 1] {
                    Work::Print => true,
                    Work::Echo => true,
                    Work::Bind(_) => true,
                    Work::Rebind(_) => true,
                    Work::Test(_, _) => true,
                    Work::Return => true,
                    _ => false,
                };
                assert(evaluates == now.last().evaluates());
                assert(consumes == now.last().consumes());
                if evaluates {
                    self.work.pop();
                    assert(work_views(self.work@) =~= now.drop_last());
                } else if consumes {
                    self.work.pop();
                    assert(work_views(self.work@) =~= now.drop_last());
                    done = true;
                } else {
                    done = true;
                }
            }
        }
        self.values.clear();
        assert(literal_views(self.values@) =~= Seq::empty());
        Action::Failed(error)
    }

    /// Adds the work of running the statements one after the other.
    fn stage(&mut self, stmts: Vec<Stmt>)
        ensures
            final(self)@ == (Machine {
                work: old(self)@.work + staged(stmt_views(stmts@)),
                ..old(self)@
            }),
            final(self).scopes == old(self).scopes,
    {
        let ghost base = work_views(self.work@);
        let ghost all = stmt_views(stmts@);
        let ghost n = all.len() as int;
        let mut stmts = stmts;
        assert(base + staged(all).take(0) =~= base);
        while stmts.len() > 0
            invariant
                self.scopes == old(self).scopes,
                self.print_expr_result == old(self).print_expr_result,
                self.values == old(self).values,
                self.waiting == old(self).waiting,
                self.result == old(self).result,
                n == all.len(),
                stmts@.len() <= n,
                stmt_views(stmts@) == all.take(stmts@.len() as int),
                work_views(self.work@) == base + staged(all).take(n - stmts@.len()),
            decreases stmts@.len(),
        {
            let ghost k = stmts@.len() as int;
            let ghost before = stmts@;
            let stmt = stmts.pop().unwrap();
            assert(stmt@ == all[k - 1]) by {
                assert(stmt_views(before)[k - 1] == before[k - 1]@);
            }
            assert(stmt_views(stmts@) =~= all.take(k - 1)) by {
                assert forall|i: int| 0 <= i < k - 1 implies stmt_views(stmts@)[i] == all[i] by {
                    assert(stmt_views(before)[i] == before[i]@);
                }
            }
            let item = Work::Stmt(stmt);
            assert(work_views(self.work@.push(item)) =~= base + staged(all).take(n - k + 1)) by {
                let now = work_views(self.work@);
                let more = work_views(self.work@.push(item));
                let target = base + staged(all).take(n - k + 1);
                assert(staged(all).len() == n);
                assert(staged(all)[n - k] == WorkView::Stmt(all[k - 1]));
                assert(staged(all).take(n - k).len() == n - k);
                assert(staged(all).take(n - k + 1).len() == n - k + 1);
                assert(now == base + staged(all).take(n - k));
                assert(now.len() == self.work@.len());
                assert(now.len() == base.len() + (n - k));
                assert(more.len() == self.work@.len() + 1);
                assert(target.len() == base.len() + (n - k + 1));
                assert forall|i: int| 0 <= i < more.len() implies more[i] == target[i] by {
                    if i < now.len() {
                        assert(more[i] == now[i]);
                        assert(now[i] == (base + staged(all).take(n - k))[i]);
                    }
                }
            }
            self.work.push(item);
        }
        assert(staged(all).take(n) =~= staged(all));
    }

    /// Enters a block: a new innermost scope, the statements of the body,
    /// and the work of leaving the scope behind them.
    fn execute_block(&mut self, body: Vec<Stmt>)
        requires
            old(self).scopes_wf(),
        ensures
            final(self)@ == old(self)@.entered(stmt_views(body@)),
            final(self).scopes_wf(),
    {
        let scope = Scope::new();
        assert(scope_views(self.scopes@.push(scope)) =~= scope_views(self.scopes@).push(
            Map::empty(),
        ));
        self.scopes.push(scope);
        self.push_work(Work::Leave);
        self.stage(body);
    }

    /// Adds the work of a statement.
    fn execute_statement(&mut self, stmt: Stmt)
        requires
            old(self).scopes_wf(),
        ensures
            final(self)@ == old(self)@.begun(stmt@),
            final(self).scopes_wf(),
    {
        proof {
            stmt.lemma_model_of_body();
        }
        match stmt {
            Stmt::Expr(expr) => {
                self.push_work(Work::Echo);
                self.push_work(Work::Eval(expr));
            },
            Stmt::Print(expr) => {
                self.push_work(Work::Print);
                self.push_work(Work::Eval(expr));
            },
            Stmt::Assign(name, expr) => {
                self.push_work(Work::Bind(name));
                self.push_work(Work::Eval(expr));
            },
            Stmt::Reassign(name, expr) => {
                self.push_work(Work::Rebind(name));
                self.push_work(Work::Eval(expr));
            },
            Stmt::While(condition, body) => {
                self.push_work(Work::Loop(condition, body));
            },
            Stmt::Block(body) => {
                self.execute_block(body);
            },
        }
    }

    /// Binds the name in the innermost scope.
    fn insert_var(&mut self, name: String, value: Literal)
        requires
            old(self).scopes_wf(),
            old(self).scopes@.len() > 0,
        ensures
            final(self)@ == old(self)@.bound(name@, value@),
            final(self).scopes_wf(),
    {
        let last = self.scopes.len() - 1;
        let ghost before = scope_views(self.scopes@);
        self.scopes[last].insert_var(name, value);
        assert(scope_views(self.scopes@) =~= before.update(
            before.len() - 1,
            before.last().insert(name@, value@),
        ));
    }

    /// Gives the nearest binding of the name the value, if there is one.
    fn insert_if_exists(&mut self, name: String, value: Literal) -> (found: bool)
        requires
            old(self).scopes_wf(),
        ensures
            found == holder(old(self)@.scopes, name@).is_some(),
            (Stepped {
                machine: final(self)@,
                action: if found {
                    ActionView::Continue
                } else {
                    ActionView::Undefined(name@)
                },
            }) == old(self)@.rebound(name@, value@),
            final(self).scopes_wf(),
    {
        let ghost before = scope_views(self.scopes@);
        let mut i: usize = self.scopes.len();
        assert(before.take(i as int) =~= before);
        while i > 0
            invariant
                i <= self.scopes@.len(),
                self.scopes == old(self).scopes,
                self.print_expr_result == old(self).print_expr_result,
                self.work == old(self).work,
                self.values == old(self).values,
                self.waiting == old(self).waiting,
                self.result == old(self).result,
                self.scopes_wf(),
                before == scope_views(self.scopes@),
                holder(before, name@) == holder(before.take(i as int), name@),
            decreases i,
        {
            let ghost part = before.take(i as int);
            assert(part.last() == before[i - 1]);
            assert(part.drop_last() =~= before.take(i - 1));
            if self.scopes[i - 1].contains(&name) {
                self.scopes[i - 1].insert_var(name, value);
                assert(scope_views(self.scopes@) =~= before.update(
                    i - 1,
                    before[i - 1].insert(name@, value@),
                ));
                return true;
            }
            i = i - 1;
        }
        false
    }

    /// The value of a variable: that of the innermost scope that binds the
    /// name.
    pub fn get_var(&self, name: &String) -> (r: Option<Literal>)
        requires
            self.wf(),
        ensures
            literal_view(r) == lookup(self@.scopes, name@),
    {
        self.find(name)
    }

    /// The global scope.
    pub fn global(&self) -> (scope: &Scope)
        requires
            self.wf(),
        ensures
            scope.wf(),
            scope@ == self@.scopes[0],
    {
        &self.scopes[0]
    }

    /// Abandons the work that is under way, and the values. The scope chain
    /// stays as it stands.
    fn reset(&mut self)
        requires
            old(self).wf(),
        ensures
            final(self)@ == old(self)@.reset(),
            final(self).scopes_wf(),
    {
        self.work.clear();
        self.values.clear();
        self.waiting = None;
        assert(work_views(self.work@) =~= Seq::empty());
        assert(literal_views(self.values@) =~= Seq::empty());
    }

    /// Loads a program: its statements will run in order in the scope chain
    /// as it stands, and the chain is as deep again when they are done. The
    /// work that the machine had under way is abandoned.
    pub fn execute_code(&mut self, program: Block)
        requires
            old(self).wf(),
        ensures
            final(self).wf(),
            final(self)@ == old(self)@.loaded(program@),
            final(self)@.scopes == old(self)@.scopes,
            final(self)@.base() == old(self)@.scopes.len(),
    {
        let ghost before = self@;
        self.reset();
        self.stage(program.stmts);
        proof {
            assert(Seq::<WorkView>::empty() + staged(program@) =~= staged(program@));
            before.lemma_loaded_wf(program@);
        }
    }

    /// Loads an expression to evaluate on its own, against the scope chain
    /// as it stands. Once the machine is done, `take_result` hands out the
    /// value. The work that the machine had under way is abandoned.
    pub fn evaluate(&mut self, expr: Expr)
        requires
            old(self).wf(),
        ensures
            final(self).wf(),
            final(self)@ == old(self)@.solving(expr@),
            final(self)@.scopes == old(self)@.scopes,
    {
        let ghost before = self@;
        self.reset();
        self.result = None;
        self.push_work(Work::Return);
        self.push_work(Work::Eval(expr));
        proof {
            assert(self@.work =~= seq![WorkView::Return, WorkView::Eval(expr@)]);
            before.lemma_solving_wf(expr@);
        }
    }

    /// Hands out the value of the expression that was evaluated on its own
    /// last, once.
    pub fn take_result(&mut self) -> (r: Option<Literal>)
        requires
            old(self).wf(),
        ensures
            final(self).wf(),
            literal_view(r) == old(self)@.result,
            final(self)@ == (Machine { result: None, ..old(self)@ }),
    {
        let mut r: Option<Literal> = None;
        std::mem::swap(&mut r, &mut self.result);
        r
    }

    /// Takes the host's answer to the request that the machine waits on: its
    /// value goes on the stack of values. The result says whether the answer
    /// was taken: one that nothing asked for, or of the wrong kind, is not.
    pub fn answer(&mut self, reply: Reply) -> (taken: bool)
        requires
            old(self).wf(),
        ensures
            final(self).wf(),
            final(self)@ == old(self)@.answered(reply@),
            taken == (old(self)@.waiting is Some && old(self)@.waiting->Some_0.answered(
                reply@,
            ) is Some),
    {
        let ghost before = self@;
        proof {
            before.lemma_answered_wf(reply@);
        }
        let value = match &self.waiting {
            Some(request) => request.answered(reply),
            None => None,
        };
        match value {
            Some(value) => {
                self.push_value(value);
                self.waiting = None;
                true
            },
            None => false,
        }
    }

    /// Goes on with what a binary operator came to.
    fn apply(&mut self, outcome: Outcome) -> (action: Action)
        requires
            old(self).waiting is None,
        ensures
            (Stepped { machine: final(self)@, action: action@ }) == old(self)@.applied(outcome@),
            final(self).scopes == old(self).scopes,
    {
        match outcome {
            Outcome::Value(value) => {
                self.push_value(value);
                Action::Continue
            },
            Outcome::Error(error) => self.fail(error),
            Outcome::Whole(request) => self.ask(request),
            Outcome::Left(request, op, right) => {
                self.push_value(right);
                self.push_work(Work::Flipped(op));
                self.ask(request)
            },
            Outcome::Right(left, op, request) => {
                self.push_value(left);
                self.push_work(Work::Apply(op));
                self.ask(request)
            },
        }
    }

    /// Prints a value; a float is shown by the host first, and `again` is the
    /// item that then prints its text.
    fn print(&mut self, value: Literal, again: Work) -> (action: Action)
        requires
            old(self).waiting is None,
        ensures
            (Stepped { machine: final(self)@, action: action@ }) == old(self)@.printed(
                value@,
                again@,
            ),
            final(self).scopes == old(self).scopes,
    {
        match value {
            Literal::Float(bits) => {
                self.push_work(again);
                self.ask(Request::Show(bits))
            },
            other => match other.to_string() {
                Some(text) => Action::Print(text),
                None => Action::Continue,
            },
        }
    }

    /// Starts the evaluation of an expression: a leaf gives its value, an
    /// operator becomes the work of evaluating its operands and applying it.
    fn eval(&mut self, expr: Expr) -> (action: Action)
        requires
            old(self).waiting is None,
            old(self).scopes_wf(),
        ensures
            (Stepped { machine: final(self)@, action: action@ }) == old(self)@.evaluated(expr@),
            final(self).scopes == old(self).scopes,
    {
        match expr {
            Expr::Literal(value) => {
                self.push_value(value);
                Action::Continue
            },
            Expr::Decimal(text) => {
                let chars = chars_of(text.as_str());
                if read_decimal(&chars) {
                    self.ask(Request::Parse(text))
                } else {
                    self.fail(LiteralOpError::InvalidTypeError)
                }
            },
            Expr::Ident(name) => match self.find(&name) {
                Some(value) => {
                    self.push_value(value);
                    Action::Continue
                },
                None => self.fail(LiteralOpError::UndefinedVariableError),
            },
            Expr::Not(operand) => {
                self.push_work(Work::Unary(Unary::Not));
                self.push_work(Work::Eval(*operand));
                Action::Continue
            },
            Expr::Negate(operand) => {
                self.push_work(Work::Unary(Unary::Neg));
                self.push_work(Work::Eval(*operand));
                Action::Continue
            },
            other => match other.into_binary() {
                Ok((op, left, right)) => {
                    self.push_work(Work::Apply(op));
                    self.push_work(Work::Eval(right));
                    self.push_work(Work::Eval(left));
                    Action::Continue
                },
                Err(_) => Action::Continue,
            },
        }
    }

    /// Looks a name up from the innermost scope outwards.
    fn find(&self, name: &String) -> (r: Option<Literal>)
        requires
            self.scopes_wf(),
        ensures
            literal_view(r) == lookup(self@.scopes, name@),
    {
        let ghost all = scope_views(self.scopes@);
        let mut i: usize = self.scopes.len();
        assert(all.take(i as int) =~= all);
        while i > 0
            invariant
                i <= self.scopes@.len(),
                self.scopes_wf(),
                all == scope_views(self.scopes@),
                lookup(all, name@) == lookup(all.take(i as int), name@),
            decreases i,
        {
            let ghost part = all.take(i as int);
            assert(part.last() == all[i - 1]);
            assert(part.drop_last() =~= all.take(i - 1));
            match self.scopes[i - 1].get_var(name) {
                Some(value) => {
                    return Some(value.clone());
                },
                None => {},
            }
            i = i - 1;
        }
        None
    }

    /// One transition of the machine. The result says what the host has to
    /// do before it calls `step` again.
    pub fn step(&mut self) -> (action: Action)
        requires
            old(self).wf(),
        ensures
            final(self).wf(),
            (Stepped { machine: final(self)@, action: action@ }) == old(self)@.step(),
    {
        let ghost before = self@;
        proof {
            before.lemma_step_wf();
        }
        match &self.waiting {
            Some(request) => {
                return Action::Ask(request.clone());
            },
            None => {},
        }
        if self.work.len() == 0 {
            return Action::Done;
        }
        let ghost n = self.values@.len() as int;
        proof {
            let item = before.work.last();
            assert(before.work.drop_last().push(item) =~= before.work);
            crate::machine::lemma_typed_pushed(before.work.drop_last(), item, n);
            crate::machine::lemma_pushed(before.work.drop_last(), item);
        }
        assert(work_views(self.work@.drop_last()) =~= before.work.drop_last());
        let item = self.work.pop().unwrap();
        assert(item@ == before.work.last());
        let ghost rest = self@;
        assert(rest == (Machine { work: before.work.drop_last(), ..before }));
        match item {
            Work::Stmt(stmt) => {
                self.execute_statement(stmt);
                Action::Continue
            },
            Work::Leave => {
                assert(scope_views(self.scopes@.drop_last()) =~= before.scopes.drop_last());
                self.scopes.pop();
                Action::Continue
            },
            Work::Loop(condition, body) => {
                let again = condition.clone();
                self.push_work(Work::Test(condition, body));
                self.push_work(Work::Eval(again));
                Action::Continue
            },
            Work::Test(condition, body) => {
                let value = self.pop_value();
                if value.is_truthy() {
                    let once = clone_stmts(&body);
                    self.push_work(Work::Loop(condition, body));
                    self.execute_block(once);
                }
                Action::Continue
            },
            Work::Eval(expr) => self.eval(expr),
            Work::Apply(op) => {
                let right = self.pop_value();
                let left = self.pop_value();
                assert(self@ == rest.without_values(2)) by {
                    assert(rest.values.take(n - 1).take(n - 2) =~= rest.values.take(n - 2));
                }
                let outcome = left.binary(op, right);
                self.apply(outcome)
            },
            Work::Flipped(op) => {
                let left = self.pop_value();
                let right = self.pop_value();
                assert(self@ == rest.without_values(2)) by {
                    assert(rest.values.take(n - 1).take(n - 2) =~= rest.values.take(n - 2));
                }
                let outcome = left.binary(op, right);
                self.apply(outcome)
            },
            Work::Unary(op) => {
                let value = self.pop_value();
                match op {
                    Unary::Not => {
                        self.push_value(value.not());
                        Action::Continue
                    },
                    Unary::Neg => match value.negate() {
                        Ok(negated) => {
                            self.push_value(negated);
                            Action::Continue
                        },
                        Err(error) => self.fail(error),
                    },
                }
            },
            Work::Print => {
                let value = self.pop_value();
                self.print(value, Work::Print)
            },
            Work::Echo => {
                let value = self.pop_value();
                if self.print_expr_result {
                    self.print(value, Work::Echo)
                } else {
                    Action::Continue
                }
            },
            Work::Bind(name) => {
                let value = self.pop_value();
                self.insert_var(name, value);
                Action::Continue
            },
            Work::Rebind(name) => {
                let value = self.pop_value();
                let missing = name.clone();
                if self.insert_if_exists(name, value) {
                    Action::Continue
                } else {
                    Action::Undefined(missing)
                }
            },
            Work::Return => {
                let value = self.pop_value();
                self.result = Some(value);
                Action::Continue
            },
        }
    }
}

impl Expr {
    /// Loads the expression into the machine, to be evaluated on its own
    /// against the machine's scope chain as it stands, the innermost scope
    /// first. Once the machine is done, its result is the value; an
    /// expression that fails leaves no result. The scope chain is not
    /// changed.
    pub fn solve(&self, executor: &mut Executor)
        requires
            old(executor).wf(),
        ensures
            final(executor).wf(),
            final(executor)@ == old(executor)@.solving(self@),
            final(executor)@.scopes == old(executor)@.scopes,
    {
        executor.evaluate(self.clone());
    }
}

} // verus!

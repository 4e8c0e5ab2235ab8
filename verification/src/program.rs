//! What running statements comes to, as one function of the statements, the
//! scope chain and the host's answers; and the proof that the machine, run
//! against a host, does exactly that.
//!
//! A loop may run forever, so the function takes a bound: it gives a result
//! for the runs that enter at most that many blocks and loop bodies within
//! one another and one after the other in a loop.

use crate::expr::ExprView;
use crate::machine::{
    holder, lemma_holder_bounds, lemma_pushed, staged, ActionView, Machine, WorkView,
};
use crate::semantics::{answer_of, answers_in_kind, evaluated, Host, Trace};
use crate::stmt::StmtView;
use crate::value::{LiteralView, RequestView};
use vstd::prelude::*;

verus! {

/// What a run comes to: the scope chain that it leaves, what the machine
/// told its host, and the number of transitions taken.
pub struct Ran {
    pub scopes: Seq<Map<Seq<char>, LiteralView>>,
    pub reports: Seq<ActionView>,
    pub steps: nat,
}

/// The text that is printed for a value: a float's is the host's.
pub open spec fn text_of(value: LiteralView, host: Host) -> Seq<char> {
    match value {
        LiteralView::Float(bits) => match answer_of(RequestView::Show(bits), host) {
            LiteralView::String(text) => text,
            _ => Seq::empty(),
        },
        _ => value.text().unwrap(),
    }
}

/// What printing a value comes to.
pub open spec fn printed(
    value: LiteralView,
    scopes: Seq<Map<Seq<char>, LiteralView>>,
    host: Host,
) -> Ran {
    Ran {
        scopes,
        reports: seq![ActionView::Print(text_of(value, host))],
        steps: if value is Float {
            2
        } else {
            1
        },
    }
}

/// What the item that waits for the value of a statement's expression does
/// with it.
pub open spec fn consumed(
    consumer: WorkView,
    value: LiteralView,
    scopes: Seq<Map<Seq<char>, LiteralView>>,
    echo: bool,
    host: Host,
) -> Ran
    recommends
        scopes.len() > 0,
{
    match consumer {
        WorkView::Print => printed(value, scopes, host),
        WorkView::Echo => if echo {
            printed(value, scopes, host)
        } else {
            Ran { scopes, reports: Seq::empty(), steps: 1 }
        },
        WorkView::Bind(name) => Ran {
            scopes: scopes.update(scopes.len() - 1, scopes.last().insert(name, value)),
            reports: Seq::empty(),
            steps: 1,
        },
        WorkView::Rebind(name) => match holder(scopes, name) {
            Some(at) => Ran {
                scopes: scopes.update(at, scopes[at].insert(name, value)),
                reports: Seq::empty(),
                steps: 1,
            },
            None => Ran { scopes, reports: seq![ActionView::Undefined(name)], steps: 1 },
        },
        _ => Ran { scopes, reports: Seq::empty(), steps: 1 },
    }
}

/// What a statement with one expression comes to: the expression is
/// evaluated and its value consumed; where the evaluation fails, the
/// statement has no effect and the failure is reported.
pub open spec fn simple(
    consumer: WorkView,
    expr: ExprView,
    scopes: Seq<Map<Seq<char>, LiteralView>>,
    echo: bool,
    host: Host,
) -> Ran {
    let value = evaluated(expr, scopes, host);
    match value.result {
        Err(error) => Ran {
            scopes,
            reports: seq![ActionView::Failed(error)],
            steps: 1 + value.steps,
        },
        Ok(value_) => {
            let end = consumed(consumer, value_, scopes, echo, host);
            Ran { scopes: end.scopes, reports: end.reports, steps: 1 + value.steps + end.steps }
        },
    }
}

/// What a statement comes to; nothing where the bound does not suffice.
pub open spec fn exec_stmt(
    stmt: StmtView,
    scopes: Seq<Map<Seq<char>, LiteralView>>,
    echo: bool,
    host: Host,
    fuel: nat,
) -> Option<Ran>
    decreases fuel, 0nat,
{
    match stmt {
        StmtView::Expr(expr) => Some(simple(WorkView::Echo, expr, scopes, echo, host)),
        StmtView::Print(expr) => Some(simple(WorkView::Print, expr, scopes, echo, host)),
        StmtView::Assign(name, expr) => Some(
            simple(WorkView::Bind(name), expr, scopes, echo, host),
        ),
        StmtView::Reassign(name, expr) => Some(
            simple(WorkView::Rebind(name), expr, scopes, echo, host),
        ),
        StmtView::Block(body) => if fuel == 0 {
            None
        } else {
            match exec_list(body, 0, scopes.push(Map::empty()), echo, host, (fuel - 1) as nat) {
                None => None,
                Some(inner) => Some(
                    Ran {
                        scopes: inner.scopes.drop_last(),
                        reports: inner.reports,
                        steps: 1 + inner.steps + 1,
                    },
                ),
            }
        },
        StmtView::While(condition, body) => if fuel == 0 {
            None
        } else {
            match exec_loop(condition, body, scopes, echo, host, (fuel - 1) as nat) {
                None => None,
                Some(inner) => Some(
                    Ran { scopes: inner.scopes, reports: inner.reports, steps: 1 + inner.steps },
                ),
            }
        },
    }
}

/// What a loop comes to: the condition is evaluated; where it is true, the
/// body runs in a scope of its own and the loop starts again; where it
/// fails, the loop ends and the failure is reported.
pub open spec fn exec_loop(
    condition: ExprView,
    body: Seq<StmtView>,
    scopes: Seq<Map<Seq<char>, LiteralView>>,
    echo: bool,
    host: Host,
    fuel: nat,
) -> Option<Ran>
    decreases fuel, 1nat,
{
    let test = evaluated(condition, scopes, host);
    match test.result {
        Err(error) => Some(
            Ran { scopes, reports: seq![ActionView::Failed(error)], steps: 1 + test.steps },
        ),
        Ok(value) => if !value.is_truthy() {
            Some(Ran { scopes, reports: Seq::empty(), steps: 1 + test.steps + 1 })
        } else if fuel == 0 {
            None
        } else {
            match exec_list(body, 0, scopes.push(Map::empty()), echo, host, (fuel - 1) as nat) {
                None => None,
                Some(once) => match exec_loop(
                    condition,
                    body,
                    once.scopes.drop_last(),
                    echo,
                    host,
                    (fuel - 1) as nat,
                ) {
                    None => None,
                    Some(more) => Some(
                        Ran {
                            scopes: more.scopes,
                            reports: once.reports + more.reports,
                            steps: 1 + test.steps + 1 + once.steps + 1 + more.steps,
                        },
                    ),
                },
            }
        },
    }
}

/// What the statements from index `from` on come to, one after the other.
pub open spec fn exec_list(
    stmts: Seq<StmtView>,
    from: int,
    scopes: Seq<Map<Seq<char>, LiteralView>>,
    echo: bool,
    host: Host,
    fuel: nat,
) -> Option<Ran>
    decreases fuel, 2 + stmts.len() - from,
{
    if from < 0 || from >= stmts.len() {
        Some(Ran { scopes, reports: Seq::empty(), steps: 0 })
    } else {
        match exec_stmt(stmts[from], scopes, echo, host, fuel) {
            None => None,
            Some(first) => match exec_list(stmts, from + 1, first.scopes, echo, host, fuel) {
                None => None,
                Some(rest) => Some(
                    Ran {
                        scopes: rest.scopes,
                        reports: first.reports + rest.reports,
                        steps: first.steps + rest.steps,
                    },
                ),
            },
        }
    }
}


impl Machine {
    /// Whether the machine stands between two statements: it waits for no
    /// answer, and no value is left on the stack of values.
    pub open spec fn between(self) -> bool {
        self.waiting is None && self.values.len() == 0
    }

    /// The machine with one more item of work on top.
    pub open spec fn over(self, item: WorkView) -> Machine {
        Machine { work: self.work.push(item), ..self }
    }

    /// The machine with another scope chain.
    pub open spec fn scoped(self, scopes: Seq<Map<Seq<char>, LiteralView>>) -> Machine {
        Machine { scopes, ..self }
    }

    /// What is under the item on top is the machine as it was.
    proof fn lemma_top(self, item: WorkView)
        ensures
            self.over(item).work.last() == item,
            (Machine { work: self.over(item).work.drop_last(), ..self.over(item) }) == self,
    {
        lemma_pushed(self.work, item);
    }

    /// A run of one transition that reports nothing.
    proof fn lemma_quiet_step(self, host: Host, next: Machine)
        requires
            self.step().machine == next,
            self.step().action == ActionView::Continue,
        ensures
            self.run(host, 1) == (Trace { machine: next, reports: Seq::empty() }),
    {
        self.lemma_run_one(host);
    }

    /// One run after another.
    proof fn lemma_run_both(self, host: Host, first: nat, middle: Trace, then: nat, end: Trace)
        requires
            self.run(host, first) == middle,
            middle.machine.run(host, then) == end,
        ensures
            self.run(host, first + then) == (Trace {
                machine: end.machine,
                reports: middle.reports + end.reports,
            }),
    {
        self.lemma_run_on(host, first, then);
    }

    /// The machine prints a value as `printed` says.
    proof fn lemma_printed(self, again: WorkView, value: LiteralView, host: Host)
        requires
            answers_in_kind(host),
            self.between(),
            again is Print || (again is Echo && self.echo),
        ensures
            (Machine { values: seq![value], ..self.over(again) }).run(
                host,
                printed(value, self.scopes, host).steps,
            ) == (Trace { machine: self, reports: printed(value, self.scopes, host).reports }),
    {
        let start = Machine { values: seq![value], ..self.over(again) };
        self.lemma_top(again);
        assert(start.values.take(0) =~= self.values);
        assert((Machine { work: start.work.drop_last(), ..start }).without_values(1) == self);
        start.lemma_run_one(host);
        match value {
            LiteralView::Float(bits) => {
                let request = RequestView::Show(bits);
                assert(request.answered(host(request)) is Some);
                let shown = answer_of(request, host);
                let text = shown->String_0;
                let second = Machine { values: seq![shown], ..self.over(again) };
                assert(self.values.push(shown) =~= seq![shown]);
                assert(start.run(host, 1) == (Trace {
                    machine: second,
                    reports: Seq::empty(),
                }));
                assert(second.values.take(0) =~= self.values);
                assert((Machine { work: second.work.drop_last(), ..second }).without_values(1)
                    == self);
                second.lemma_run_one(host);
                assert(second.run(host, 1) == (Trace {
                    machine: self,
                    reports: seq![ActionView::Print(text)],
                }));
                start.lemma_run_both(host, 1, start.run(host, 1), 1, second.run(host, 1));
                assert(Seq::<ActionView>::empty() + seq![ActionView::Print(text)]
                    =~= seq![ActionView::Print(text)]);
            },
            _ => {},
        }
    }

    /// The machine consumes the value of a statement's expression as
    /// `consumed` says.
    proof fn lemma_consumed(self, consumer: WorkView, value: LiteralView, host: Host)
        requires
            answers_in_kind(host),
            self.between(),
            consumer is Print || consumer is Echo || consumer is Bind || consumer is Rebind,
        ensures
            ({
                let end = consumed(consumer, value, self.scopes, self.echo, host);
                (Machine { values: seq![value], ..self.over(consumer) }).run(host, end.steps) == (
                Trace { machine: self.scoped(end.scopes), reports: end.reports })
            }),
    {
        let start = Machine { values: seq![value], ..self.over(consumer) };
        if consumer is Print || (consumer is Echo && self.echo) {
            self.lemma_printed(consumer, value, host);
        } else {
            self.lemma_top(consumer);
            assert(start.values.take(0) =~= self.values);
            assert((Machine { work: start.work.drop_last(), ..start }).without_values(1) == self);
            start.lemma_run_one(host);
        }
    }

    /// The machine runs a statement with one expression as `simple` says.
    proof fn lemma_simple(self, consumer: WorkView, expr: ExprView, host: Host)
        requires
            answers_in_kind(host),
            self.between(),
            consumer is Print || consumer is Echo || consumer is Bind || consumer is Rebind,
        ensures
            ({
                let end = simple(consumer, expr, self.scopes, self.echo, host);
                self.over(consumer).over(WorkView::Eval(expr)).run(host, (end.steps - 1) as nat)
                    == (Trace { machine: self.scoped(end.scopes), reports: end.reports })
            }),
    {
        let waiting = self.over(consumer);
        let start = waiting.over(WorkView::Eval(expr));
        let value = evaluated(expr, self.scopes, host);
        waiting.lemma_top(WorkView::Eval(expr));
        self.lemma_top(consumer);
        start.lemma_evaluation(expr, host);
        match value.result {
            Err(error) => {
                assert(self.values =~= Seq::empty());
            },
            Ok(value_) => {
                let end = consumed(consumer, value_, self.scopes, self.echo, host);
                assert(self.values.push(value_) =~= seq![value_]);
                self.lemma_consumed(consumer, value_, host);
                let evaluated = start.run(host, value.steps);
                start.lemma_run_both(
                    host,
                    value.steps,
                    evaluated,
                    end.steps,
                    evaluated.machine.run(host, end.steps),
                );
                assert(Seq::<ActionView>::empty() + end.reports =~= end.reports);
            },
        }
    }

    /// The machine runs a statement as `exec_stmt` says: from a state
    /// between statements whose next item of work is the statement, it
    /// comes, in the number of transitions given there and against any host
    /// that answers in kind, to the state with the statement done, and it
    /// has told the host what is given there.
    pub proof fn lemma_exec_stmt(self, stmt: StmtView, host: Host, fuel: nat)
        requires
            answers_in_kind(host),
            self.between(),
            exec_stmt(stmt, self.scopes, self.echo, host, fuel) is Some,
        ensures
            ({
                let end = exec_stmt(stmt, self.scopes, self.echo, host, fuel)->Some_0;
                self.over(WorkView::Stmt(stmt)).run(host, end.steps) == (Trace {
                    machine: self.scoped(end.scopes),
                    reports: end.reports,
                })
            }),
        decreases fuel, 0nat,
    {
        let start = self.over(WorkView::Stmt(stmt));
        let end = exec_stmt(stmt, self.scopes, self.echo, host, fuel)->Some_0;
        self.lemma_top(WorkView::Stmt(stmt));
        match stmt {
            StmtView::Block(body) => {
                let inner = exec_list(
                    body,
                    0,
                    self.scopes.push(Map::empty()),
                    self.echo,
                    host,
                    (fuel - 1) as nat,
                )->Some_0;
                let under = self.scoped(self.scopes.push(Map::empty())).over(WorkView::Leave);
                let entered = Machine { work: under.work + staged(body), ..under };
                start.lemma_quiet_step(host, entered);
                assert(staged(body).take(body.len() as int) =~= staged(body));
                under.lemma_exec_list(body, 0, host, (fuel - 1) as nat);
                let ran = entered.run(host, inner.steps);
                start.lemma_run_both(host, 1, start.run(host, 1), inner.steps, ran);
                assert(Seq::<ActionView>::empty() + inner.reports =~= inner.reports);
                let leaving = under.scoped(inner.scopes);
                self.scoped(inner.scopes).lemma_top(WorkView::Leave);
                leaving.lemma_quiet_step(host, self.scoped(inner.scopes.drop_last()));
                start.lemma_run_both(
                    host,
                    1 + inner.steps,
                    start.run(host, 1 + inner.steps),
                    1,
                    leaving.run(host, 1),
                );
                assert(inner.reports + Seq::<ActionView>::empty() =~= inner.reports);
            },
            StmtView::While(condition, body) => {
                let inner = exec_loop(
                    condition,
                    body,
                    self.scopes,
                    self.echo,
                    host,
                    (fuel - 1) as nat,
                )->Some_0;
                let looping = self.over(WorkView::Loop(condition, body));
                start.lemma_quiet_step(host, looping);
                self.lemma_exec_loop(condition, body, host, (fuel - 1) as nat);
                start.lemma_run_both(
                    host,
                    1,
                    start.run(host, 1),
                    inner.steps,
                    looping.run(host, inner.steps),
                );
                assert(Seq::<ActionView>::empty() + inner.reports =~= inner.reports);
            },
            StmtView::Expr(expr) => {
                self.lemma_statement(stmt, WorkView::Echo, expr, host);
            },
            StmtView::Print(expr) => {
                self.lemma_statement(stmt, WorkView::Print, expr, host);
            },
            StmtView::Assign(name, expr) => {
                self.lemma_statement(stmt, WorkView::Bind(name), expr, host);
            },
            StmtView::Reassign(name, expr) => {
                self.lemma_statement(stmt, WorkView::Rebind(name), expr, host);
            },
        }
    }

    /// The machine runs a statement with one expression as `simple` says,
    /// from the statement on.
    proof fn lemma_statement(
        self,
        stmt: StmtView,
        consumer: WorkView,
        expr: ExprView,
        host: Host,
    )
        requires
            answers_in_kind(host),
            self.between(),
            match stmt {
                StmtView::Expr(e) => consumer == WorkView::Echo && e == expr,
                StmtView::Print(e) => consumer == WorkView::Print && e == expr,
                StmtView::Assign(name, e) => consumer == WorkView::Bind(name) && e == expr,
                StmtView::Reassign(name, e) => consumer == WorkView::Rebind(name) && e == expr,
                _ => false,
            },
        ensures
            ({
                let end = simple(consumer, expr, self.scopes, self.echo, host);
                self.over(WorkView::Stmt(stmt)).run(host, end.steps) == (Trace {
                    machine: self.scoped(end.scopes),
                    reports: end.reports,
                })
            }),
    {
        let start = self.over(WorkView::Stmt(stmt));
        let end = simple(consumer, expr, self.scopes, self.echo, host);
        let begun = self.over(consumer).over(WorkView::Eval(expr));
        self.lemma_top(WorkView::Stmt(stmt));
        start.lemma_quiet_step(host, begun);
        self.lemma_simple(consumer, expr, host);
        start.lemma_run_both(
            host,
            1,
            start.run(host, 1),
            (end.steps - 1) as nat,
            begun.run(host, (end.steps - 1) as nat),
        );
        assert(Seq::<ActionView>::empty() + end.reports =~= end.reports);
    }

    /// The machine runs a loop as `exec_loop` says.
    pub proof fn lemma_exec_loop(
        self,
        condition: ExprView,
        body: Seq<StmtView>,
        host: Host,
        fuel: nat,
    )
        requires
            answers_in_kind(host),
            self.between(),
            exec_loop(condition, body, self.scopes, self.echo, host, fuel) is Some,
        ensures
            ({
                let end = exec_loop(condition, body, self.scopes, self.echo, host, fuel)->Some_0;
                self.over(WorkView::Loop(condition, body)).run(host, end.steps) == (Trace {
                    machine: self.scoped(end.scopes),
                    reports: end.reports,
                })
            }),
        decreases fuel, 1nat,
    {
        let none = Seq::<ActionView>::empty();
        let start = self.over(WorkView::Loop(condition, body));
        let test = evaluated(condition, self.scopes, host);
        let testing = self.over(WorkView::Test(condition, body));
        let evaluating = testing.over(WorkView::Eval(condition));
        self.lemma_top(WorkView::Loop(condition, body));
        self.lemma_top(WorkView::Test(condition, body));
        testing.lemma_top(WorkView::Eval(condition));
        start.lemma_quiet_step(host, evaluating);
        evaluating.lemma_evaluation(condition, host);
        let tested = evaluating.run(host, test.steps);
        start.lemma_run_both(host, 1, start.run(host, 1), test.steps, tested);
        assert(none + tested.reports =~= tested.reports);
        match test.result {
            Err(error) => {
                assert(self.values =~= Seq::empty());
            },
            Ok(value) => {
                let decided = Machine { values: seq![value], ..testing };
                assert(self.values.push(value) =~= seq![value]);
                assert(decided.values.take(0) =~= self.values);
                assert((Machine { work: decided.work.drop_last(), ..decided }).without_values(1)
                    == self);
                if !value.is_truthy() {
                    decided.lemma_quiet_step(host, self);
                    start.lemma_run_both(
                        host,
                        1 + test.steps,
                        start.run(host, 1 + test.steps),
                        1,
                        decided.run(host, 1),
                    );
                    assert(none + none =~= none);
                } else {
                    let inside = self.scopes.push(Map::empty());
                    let less = (fuel - 1) as nat;
                    let once = exec_list(body, 0, inside, self.echo, host, less)->Some_0;
                    let after = once.scopes.drop_last();
                    let more = exec_loop(
                        condition,
                        body,
                        after,
                        self.echo,
                        host,
                        (fuel - 1) as nat,
                    )->Some_0;
                    let under = start.scoped(inside).over(WorkView::Leave);
                    let entered = Machine { work: under.work + staged(body), ..under };
                    decided.lemma_quiet_step(host, entered);
                    start.lemma_run_both(
                        host,
                        1 + test.steps,
                        start.run(host, 1 + test.steps),
                        1,
                        decided.run(host, 1),
                    );
                    assert(none + none =~= none);
                    assert(staged(body).take(body.len() as int) =~= staged(body));
                    under.lemma_exec_list(body, 0, host, (fuel - 1) as nat);
                    start.lemma_run_both(
                        host,
                        1 + test.steps + 1,
                        start.run(host, 1 + test.steps + 1),
                        once.steps,
                        entered.run(host, once.steps),
                    );
                    assert(none + once.reports =~= once.reports);
                    let leaving = under.scoped(once.scopes);
                    start.scoped(once.scopes).lemma_top(WorkView::Leave);
                    leaving.lemma_quiet_step(host, start.scoped(after));
                    start.lemma_run_both(
                        host,
                        1 + test.steps + 1 + once.steps,
                        start.run(host, 1 + test.steps + 1 + once.steps),
                        1,
                        leaving.run(host, 1),
                    );
                    assert(once.reports + none =~= once.reports);
                    self.scoped(after).lemma_exec_loop(condition, body, host, (fuel - 1) as nat);
                    start.lemma_run_both(
                        host,
                        1 + test.steps + 1 + once.steps + 1,
                        start.run(host, 1 + test.steps + 1 + once.steps + 1),
                        more.steps,
                        start.scoped(after).run(host, more.steps),
                    );
                }
            },
        }
    }

    /// The machine runs statements one after the other as `exec_list`
    /// says.
    pub proof fn lemma_exec_list(self, stmts: Seq<StmtView>, from: int, host: Host, fuel: nat)
        requires
            answers_in_kind(host),
            self.between(),
            0 <= from <= stmts.len(),
            exec_list(stmts, from, self.scopes, self.echo, host, fuel) is Some,
        ensures
            ({
                let end = exec_list(stmts, from, self.scopes, self.echo, host, fuel)->Some_0;
                (Machine { work: self.work + staged(stmts).take(stmts.len() - from), ..self }).run(
                    host,
                    end.steps,
                ) == (Trace { machine: self.scoped(end.scopes), reports: end.reports })
            }),
        decreases fuel, 2 + stmts.len() - from,
    {
        let n = stmts.len() as int;
        let start = Machine { work: self.work + staged(stmts).take(n - from), ..self };
        if from >= n {
            assert(self.work + staged(stmts).take(0) =~= self.work);
            start.lemma_run_none(host);
        } else {
            let first = exec_stmt(stmts[from], self.scopes, self.echo, host, fuel)->Some_0;
            let rest = exec_list(stmts, from + 1, first.scopes, self.echo, host, fuel)->Some_0;
            let under = Machine { work: self.work + staged(stmts).take(n - from - 1), ..self };
            assert(staged(stmts)[n - from - 1] == WorkView::Stmt(stmts[from]));
            assert(start.work =~= under.work.push(WorkView::Stmt(stmts[from])));
            under.lemma_exec_stmt(stmts[from], host, fuel);
            self.scoped(first.scopes).lemma_exec_list(stmts, from + 1, host, fuel);
            let middle = start.run(host, first.steps);
            start.lemma_run_both(
                host,
                first.steps,
                middle,
                rest.steps,
                middle.machine.run(host, rest.steps),
            );
        }
    }
}


/// Whether two scope chains are equally deep and bind the same names at
/// each level.
pub open spec fn same_names(
    before: Seq<Map<Seq<char>, LiteralView>>,
    after: Seq<Map<Seq<char>, LiteralView>>,
) -> bool {
    &&& before.len() == after.len()
    &&& forall|i: int| 0 <= i < before.len() ==> (#[trigger] after[i]).dom() == before[i].dom()
}

/// Whether two scope chains are equally deep and bind the same names at
/// each level but the innermost, which has kept its names and may have new
/// ones.
pub open spec fn names_kept(
    before: Seq<Map<Seq<char>, LiteralView>>,
    after: Seq<Map<Seq<char>, LiteralView>>,
) -> bool {
    &&& before.len() == after.len()
    &&& forall|i: int| 0 <= i < before.len() - 1 ==> (#[trigger] after[i]).dom() == before[i].dom()
    &&& before.len() > 0 ==> before.last().dom().subset_of(after.last().dom())
}

proof fn lemma_simple_names(
    consumer: WorkView,
    expr: ExprView,
    scopes: Seq<Map<Seq<char>, LiteralView>>,
    echo: bool,
    host: Host,
)
    requires
        scopes.len() > 0,
    ensures
        names_kept(scopes, simple(consumer, expr, scopes, echo, host).scopes),
        !(consumer is Bind) ==> same_names(
            scopes,
            simple(consumer, expr, scopes, echo, host).scopes,
        ),
{
    let value = evaluated(expr, scopes, host);
    match value.result {
        Err(error) => {},
        Ok(value_) => {
            match consumer {
                WorkView::Rebind(name) => {
                    lemma_holder_bounds(scopes, name);
                    match holder(scopes, name) {
                        Some(at) => {
                            assert(scopes[at].insert(name, value_).dom() =~= scopes[at].dom());
                        },
                        None => {},
                    }
                },
                _ => {},
            }
        },
    }
}

/// A statement changes no scope's names but those of the innermost scope,
/// which only a declaration adds to. `lemma_loop_names` and
/// `lemma_list_names` say the same of a loop and of statements in a row.
pub proof fn lemma_stmt_names(
    stmt: StmtView,
    scopes: Seq<Map<Seq<char>, LiteralView>>,
    echo: bool,
    host: Host,
    fuel: nat,
)
    requires
        scopes.len() > 0,
        exec_stmt(stmt, scopes, echo, host, fuel) is Some,
    ensures
        names_kept(scopes, exec_stmt(stmt, scopes, echo, host, fuel)->Some_0.scopes),
        !(stmt is Assign) ==> same_names(
            scopes,
            exec_stmt(stmt, scopes, echo, host, fuel)->Some_0.scopes,
        ),
    decreases fuel, 0nat,
{
    match stmt {
        StmtView::Expr(expr) => lemma_simple_names(WorkView::Echo, expr, scopes, echo, host),
        StmtView::Print(expr) => lemma_simple_names(WorkView::Print, expr, scopes, echo, host),
        StmtView::Assign(name, expr) => lemma_simple_names(
            WorkView::Bind(name),
            expr,
            scopes,
            echo,
            host,
        ),
        StmtView::Reassign(name, expr) => lemma_simple_names(
            WorkView::Rebind(name),
            expr,
            scopes,
            echo,
            host,
        ),
        StmtView::Block(body) => {
            lemma_block_names(body, scopes, echo, host, (fuel - 1) as nat);
        },
        StmtView::While(condition, body) => {
            lemma_loop_names(condition, body, scopes, echo, host, (fuel - 1) as nat);
        },
    }
}

/// The statements of a block, run in a scope of their own, leave every
/// scope outside with the names that it had.
proof fn lemma_block_names(
    body: Seq<StmtView>,
    scopes: Seq<Map<Seq<char>, LiteralView>>,
    echo: bool,
    host: Host,
    fuel: nat,
)
    requires
        scopes.len() > 0,
        exec_list(body, 0, scopes.push(Map::empty()), echo, host, fuel) is Some,
    ensures
        same_names(
            scopes,
            exec_list(
                body,
                0,
                scopes.push(Map::empty()),
                echo,
                host,
                fuel,
            )->Some_0.scopes.drop_last(),
        ),
    decreases fuel, 3 + body.len(),
{
    let inside = scopes.push(Map::empty());
    lemma_list_names(body, 0, inside, echo, host, fuel);
    let after = exec_list(body, 0, inside, echo, host, fuel)->Some_0.scopes;
    assert forall|i: int| 0 <= i < scopes.len() implies (#[trigger] after.drop_last()[i]).dom()
        == scopes[i].dom() by {
        assert(after.drop_last()[i] == after[i]);
        assert(inside[i] == scopes[i]);
    }
}

/// A loop leaves every scope with the names that it had.
pub proof fn lemma_loop_names(
    condition: ExprView,
    body: Seq<StmtView>,
    scopes: Seq<Map<Seq<char>, LiteralView>>,
    echo: bool,
    host: Host,
    fuel: nat,
)
    requires
        scopes.len() > 0,
        exec_loop(condition, body, scopes, echo, host, fuel) is Some,
    ensures
        same_names(scopes, exec_loop(condition, body, scopes, echo, host, fuel)->Some_0.scopes),
    decreases fuel, 1nat,
{
    let test = evaluated(condition, scopes, host);
    match test.result {
        Err(error) => {},
        Ok(value) => {
            if value.is_truthy() {
                let inside = scopes.push(Map::empty());
                let once = exec_list(body, 0, inside, echo, host, (fuel - 1) as nat)->Some_0;
                lemma_block_names(body, scopes, echo, host, (fuel - 1) as nat);
                lemma_loop_names(
                    condition,
                    body,
                    once.scopes.drop_last(),
                    echo,
                    host,
                    (fuel - 1) as nat,
                );
            }
        },
    }
}

/// Statements in a row change no scope's names but those of the innermost
/// scope, which only declarations add to.
pub proof fn lemma_list_names(
    stmts: Seq<StmtView>,
    from: int,
    scopes: Seq<Map<Seq<char>, LiteralView>>,
    echo: bool,
    host: Host,
    fuel: nat,
)
    requires
        scopes.len() > 0,
        0 <= from <= stmts.len(),
        exec_list(stmts, from, scopes, echo, host, fuel) is Some,
    ensures
        names_kept(scopes, exec_list(stmts, from, scopes, echo, host, fuel)->Some_0.scopes),
    decreases fuel, 2 + stmts.len() - from,
{
    if from < stmts.len() {
        let first = exec_stmt(stmts[from], scopes, echo, host, fuel)->Some_0;
        lemma_stmt_names(stmts[from], scopes, echo, host, fuel);
        lemma_list_names(stmts, from + 1, first.scopes, echo, host, fuel);
    }
}

/// Scoping: whatever a block does, it leaves the scope chain as deep as it
/// was, with the same names at every level. What was declared inside is
/// discarded, and an outer variable of the same name is there as before.
pub proof fn lemma_block_discards(
    body: Seq<StmtView>,
    scopes: Seq<Map<Seq<char>, LiteralView>>,
    echo: bool,
    host: Host,
    fuel: nat,
)
    requires
        scopes.len() > 0,
        exec_stmt(StmtView::Block(body), scopes, echo, host, fuel) is Some,
    ensures
        same_names(
            scopes,
            exec_stmt(StmtView::Block(body), scopes, echo, host, fuel)->Some_0.scopes,
        ),
{
    lemma_stmt_names(StmtView::Block(body), scopes, echo, host, fuel);
}

/// A declaration inside a block does not reach the variable of the same
/// name outside: a block that only declares leaves every scope outside as
/// it was.
pub proof fn lemma_declaration_stays_inside(
    name: Seq<char>,
    expr: ExprView,
    scopes: Seq<Map<Seq<char>, LiteralView>>,
    echo: bool,
    host: Host,
)
    requires
        scopes.len() > 0,
    ensures
        exec_stmt(StmtView::Block(seq![StmtView::Assign(name, expr)]), scopes, echo, host, 1)
            is Some,
        exec_stmt(
            StmtView::Block(seq![StmtView::Assign(name, expr)]),
            scopes,
            echo,
            host,
            1,
        )->Some_0.scopes == scopes,
{
    let body = seq![StmtView::Assign(name, expr)];
    let inside = scopes.push(Map::empty());
    let first = exec_stmt(body[0], inside, echo, host, 0);
    let one = simple(WorkView::Bind(name), expr, inside, echo, host);
    assert(first == Some(one));
    assert(exec_list(body, 1, one.scopes, echo, host, 0) == Some(
        Ran { scopes: one.scopes, reports: Seq::empty(), steps: 0 },
    ));
    assert(exec_list(body, 0, inside, echo, host, 0) is Some);
    assert(exec_list(body, 0, inside, echo, host, 0)->Some_0.scopes == one.scopes);
    assert(one.scopes.drop_last() =~= scopes);
}

/// Giving a new value to a name that no scope binds binds nothing and
/// changes no scope, wherever the statement stands: where its expression
/// has a value, the host is told that the variable is undefined.
pub proof fn lemma_reassign_undefined(
    name: Seq<char>,
    expr: ExprView,
    scopes: Seq<Map<Seq<char>, LiteralView>>,
    echo: bool,
    host: Host,
    fuel: nat,
)
    requires
        forall|i: int| 0 <= i < scopes.len() ==> !(#[trigger] scopes[i]).contains_key(name),
    ensures
        exec_stmt(StmtView::Reassign(name, expr), scopes, echo, host, fuel) is Some,
        exec_stmt(StmtView::Reassign(name, expr), scopes, echo, host, fuel)->Some_0.scopes
            == scopes,
        exec_stmt(StmtView::Reassign(name, expr), scopes, echo, host, fuel)->Some_0.reports
            == match evaluated(expr, scopes, host).result {
            Ok(_) => seq![ActionView::Undefined(name)],
            Err(error) => seq![ActionView::Failed(error)],
        },
{
    lemma_holder_bounds(scopes, name);
}

impl Machine {
    /// The machine runs a program that was loaded as `exec_list` says, in
    /// the scope chain as it stood, and has no work left then. The chain is
    /// as deep afterwards as it was, also where statements failed: every
    /// scope that a block or a loop body got is gone again.
    pub proof fn lemma_program(self, program: Seq<StmtView>, host: Host, fuel: nat)
        requires
            answers_in_kind(host),
            exec_list(program, 0, self.scopes, self.echo, host, fuel) is Some,
        ensures
            ({
                let end = exec_list(program, 0, self.scopes, self.echo, host, fuel)->Some_0;
                let last = self.loaded(program).run(host, end.steps);
                &&& last == (Trace {
                    machine: self.reset().scoped(end.scopes),
                    reports: end.reports,
                })
                &&& last.machine.step().action == ActionView::Done
                &&& self.scopes.len() > 0 ==> names_kept(self.scopes, last.machine.scopes)
            }),
    {
        let idle = self.reset();
        assert(idle.work + staged(program).take(program.len() as int) =~= staged(program));
        idle.lemma_exec_list(program, 0, host, fuel);
        if self.scopes.len() > 0 {
            lemma_list_names(program, 0, self.scopes, self.echo, host, fuel);
        }
    }
}

/// The bound does not matter once it suffices: what a statement comes to
/// within a bound, it comes to within every larger bound.
/// `lemma_loop_bound` and `lemma_list_bound` say the same of a loop and of
/// statements in a row.
pub proof fn lemma_stmt_bound(
    stmt: StmtView,
    scopes: Seq<Map<Seq<char>, LiteralView>>,
    echo: bool,
    host: Host,
    fuel: nat,
    more: nat,
)
    requires
        fuel <= more,
        exec_stmt(stmt, scopes, echo, host, fuel) is Some,
    ensures
        exec_stmt(stmt, scopes, echo, host, more) == exec_stmt(stmt, scopes, echo, host, fuel),
    decreases fuel, 0nat,
{
    match stmt {
        StmtView::Block(body) => {
            lemma_list_bound(
                body,
                0,
                scopes.push(Map::empty()),
                echo,
                host,
                (fuel - 1) as nat,
                (more - 1) as nat,
            );
        },
        StmtView::While(condition, body) => {
            lemma_loop_bound(
                condition,
                body,
                scopes,
                echo,
                host,
                (fuel - 1) as nat,
                (more - 1) as nat,
            );
        },
        _ => {},
    }
}

/// What a loop comes to within a bound, it comes to within every larger
/// bound.
pub proof fn lemma_loop_bound(
    condition: ExprView,
    body: Seq<StmtView>,
    scopes: Seq<Map<Seq<char>, LiteralView>>,
    echo: bool,
    host: Host,
    fuel: nat,
    more: nat,
)
    requires
        fuel <= more,
        exec_loop(condition, body, scopes, echo, host, fuel) is Some,
    ensures
        exec_loop(condition, body, scopes, echo, host, more) == exec_loop(
            condition,
            body,
            scopes,
            echo,
            host,
            fuel,
        ),
    decreases fuel, 1nat,
{
    let test = evaluated(condition, scopes, host);
    match test.result {
        Err(error) => {},
        Ok(value) => {
            if value.is_truthy() {
                let inside = scopes.push(Map::empty());
                let less = (fuel - 1) as nat;
                let once = exec_list(body, 0, inside, echo, host, less)->Some_0;
                lemma_list_bound(body, 0, inside, echo, host, less, (more - 1) as nat);
                lemma_loop_bound(
                    condition,
                    body,
                    once.scopes.drop_last(),
                    echo,
                    host,
                    less,
                    (more - 1) as nat,
                );
            }
        },
    }
}

/// What statements in a row come to within a bound, they come to within
/// every larger bound.
pub proof fn lemma_list_bound(
    stmts: Seq<StmtView>,
    from: int,
    scopes: Seq<Map<Seq<char>, LiteralView>>,
    echo: bool,
    host: Host,
    fuel: nat,
    more: nat,
)
    requires
        fuel <= more,
        exec_list(stmts, from, scopes, echo, host, fuel) is Some,
    ensures
        exec_list(stmts, from, scopes, echo, host, more) == exec_list(
            stmts,
            from,
            scopes,
            echo,
            host,
            fuel,
        ),
    decreases fuel, 2 + stmts.len() - from,
{
    if 0 <= from < stmts.len() {
        let first = exec_stmt(stmts[from], scopes, echo, host, fuel)->Some_0;
        lemma_stmt_bound(stmts[from], scopes, echo, host, fuel, more);
        lemma_list_bound(stmts, from + 1, first.scopes, echo, host, fuel, more);
    }
}


/// Whether no scope of the chain binds the name.
pub open spec fn unbound(scopes: Seq<Map<Seq<char>, LiteralView>>, name: Seq<char>) -> bool {
    forall|i: int| 0 <= i < scopes.len() ==> !(#[trigger] scopes[i]).contains_key(name)
}

/// Whether a statement declares the name, itself or anywhere in a block or
/// in a loop body inside it.
pub open spec fn declares(stmt: StmtView, name: Seq<char>) -> bool
    decreases stmt,
{
    match stmt {
        StmtView::Assign(declared, _) => declared == name,
        StmtView::Block(body) => exists|i: int|
            0 <= i < body.len() && declares(#[trigger] body[i], name),
        StmtView::While(_, body) => exists|i: int|
            0 <= i < body.len() && declares(#[trigger] body[i], name),
        _ => false,
    }
}

/// Whether one of the statements declares the name, at any depth.
pub open spec fn declared_in(stmts: Seq<StmtView>, name: Seq<char>) -> bool {
    exists|i: int| 0 <= i < stmts.len() && declares(#[trigger] stmts[i], name)
}

/// Whether the target stands among the statements from index `from` on,
/// `depth` blocks deep: in the list itself for depth 0, else in a block of
/// the list, one block less deep.
pub open spec fn stands_in(stmts: Seq<StmtView>, from: int, target: StmtView, depth: nat) -> bool
    decreases depth,
{
    exists|i: int|
        from <= i < stmts.len() && 0 <= i && if depth == 0 {
            (#[trigger] stmts[i]) == target
        } else {
            stmts[i] is Block && stands_in(stmts[i]->Block_0, 0, target, (depth - 1) as nat)
        }
}

proof fn lemma_simple_unbound(
    consumer: WorkView,
    expr: ExprView,
    scopes: Seq<Map<Seq<char>, LiteralView>>,
    echo: bool,
    host: Host,
    name: Seq<char>,
)
    requires
        scopes.len() > 0,
        unbound(scopes, name),
        consumer != WorkView::Bind(name),
    ensures
        unbound(simple(consumer, expr, scopes, echo, host).scopes, name),
{
    let value = evaluated(expr, scopes, host);
    match value.result {
        Err(error) => {},
        Ok(value_) => {
            match consumer {
                WorkView::Rebind(other) => {
                    lemma_holder_bounds(scopes, other);
                },
                _ => {},
            }
        },
    }
}

/// A statement that declares a name nowhere leaves the name unbound where
/// it was unbound. `lemma_loop_unbound` and `lemma_list_unbound` say the
/// same of a loop and of statements in a row.
pub proof fn lemma_stmt_unbound(
    stmt: StmtView,
    scopes: Seq<Map<Seq<char>, LiteralView>>,
    echo: bool,
    host: Host,
    fuel: nat,
    name: Seq<char>,
)
    requires
        scopes.len() > 0,
        unbound(scopes, name),
        !declares(stmt, name),
        exec_stmt(stmt, scopes, echo, host, fuel) is Some,
    ensures
        unbound(exec_stmt(stmt, scopes, echo, host, fuel)->Some_0.scopes, name),
    decreases fuel, 0nat,
{
    match stmt {
        StmtView::Expr(expr) => lemma_simple_unbound(
            WorkView::Echo,
            expr,
            scopes,
            echo,
            host,
            name,
        ),
        StmtView::Print(expr) => lemma_simple_unbound(
            WorkView::Print,
            expr,
            scopes,
            echo,
            host,
            name,
        ),
        StmtView::Assign(declared, expr) => lemma_simple_unbound(
            WorkView::Bind(declared),
            expr,
            scopes,
            echo,
            host,
            name,
        ),
        StmtView::Reassign(other, expr) => lemma_simple_unbound(
            WorkView::Rebind(other),
            expr,
            scopes,
            echo,
            host,
            name,
        ),
        StmtView::Block(body) => {
            lemma_block_unbound(body, scopes, echo, host, (fuel - 1) as nat, name);
        },
        StmtView::While(condition, body) => {
            lemma_loop_unbound(condition, body, scopes, echo, host, (fuel - 1) as nat, name);
        },
    }
}

proof fn lemma_block_unbound(
    body: Seq<StmtView>,
    scopes: Seq<Map<Seq<char>, LiteralView>>,
    echo: bool,
    host: Host,
    fuel: nat,
    name: Seq<char>,
)
    requires
        scopes.len() > 0,
        unbound(scopes, name),
        !declared_in(body, name),
        exec_list(body, 0, scopes.push(Map::empty()), echo, host, fuel) is Some,
    ensures
        unbound(
            exec_list(
                body,
                0,
                scopes.push(Map::empty()),
                echo,
                host,
                fuel,
            )->Some_0.scopes.drop_last(),
            name,
        ),
    decreases fuel, 3 + body.len(),
{
    let inside = scopes.push(Map::empty());
    assert forall|i: int| 0 <= i < inside.len() implies !(#[trigger] inside[i]).contains_key(
        name,
    ) by {
        if i < scopes.len() {
            assert(inside[i] == scopes[i]);
        }
    }
    lemma_list_unbound(body, 0, inside, echo, host, fuel, name);
    lemma_list_names(body, 0, inside, echo, host, fuel);
    let after = exec_list(body, 0, inside, echo, host, fuel)->Some_0.scopes;
    assert forall|i: int| 0 <= i < after.drop_last().len() implies !(
    #[trigger] after.drop_last()[i]).contains_key(name) by {
        assert(after.drop_last()[i] == after[i]);
    }
}

pub proof fn lemma_loop_unbound(
    condition: ExprView,
    body: Seq<StmtView>,
    scopes: Seq<Map<Seq<char>, LiteralView>>,
    echo: bool,
    host: Host,
    fuel: nat,
    name: Seq<char>,
)
    requires
        scopes.len() > 0,
        unbound(scopes, name),
        !declared_in(body, name),
        exec_loop(condition, body, scopes, echo, host, fuel) is Some,
    ensures
        unbound(exec_loop(condition, body, scopes, echo, host, fuel)->Some_0.scopes, name),
    decreases fuel, 1nat,
{
    let test = evaluated(condition, scopes, host);
    match test.result {
        Err(error) => {},
        Ok(value) => {
            if value.is_truthy() {
                let inside = scopes.push(Map::empty());
                let less = (fuel - 1) as nat;
                let once = exec_list(body, 0, inside, echo, host, less)->Some_0;
                lemma_block_unbound(body, scopes, echo, host, less, name);
                lemma_block_names(body, scopes, echo, host, less);
                lemma_loop_unbound(
                    condition,
                    body,
                    once.scopes.drop_last(),
                    echo,
                    host,
                    less,
                    name,
                );
            }
        },
    }
}

pub proof fn lemma_list_unbound(
    stmts: Seq<StmtView>,
    from: int,
    scopes: Seq<Map<Seq<char>, LiteralView>>,
    echo: bool,
    host: Host,
    fuel: nat,
    name: Seq<char>,
)
    requires
        scopes.len() > 0,
        0 <= from <= stmts.len(),
        unbound(scopes, name),
        !declared_in(stmts, name),
        exec_list(stmts, from, scopes, echo, host, fuel) is Some,
    ensures
        unbound(exec_list(stmts, from, scopes, echo, host, fuel)->Some_0.scopes, name),
    decreases fuel, 2 + stmts.len() - from,
{
    if from < stmts.len() {
        let first = exec_stmt(stmts[from], scopes, echo, host, fuel)->Some_0;
        assert(!declares(stmts[from], name));
        lemma_stmt_unbound(stmts[from], scopes, echo, host, fuel, name);
        lemma_stmt_names(stmts[from], scopes, echo, host, fuel);
        lemma_list_unbound(stmts, from + 1, first.scopes, echo, host, fuel, name);
    }
}

/// Reassign-miss, for every program: where no scope binds a name and the
/// program declares it nowhere, a statement that gives the name a new value
/// is reported as undefined wherever it stands, at the top of the program or
/// any number of blocks deep, and the name is bound in no scope afterwards.
/// The statement's expression is one that has a value whatever the scopes
/// hold, as a literal has.
pub proof fn lemma_reassign_miss_anywhere(
    program: Seq<StmtView>,
    from: int,
    name: Seq<char>,
    expr: ExprView,
    depth: nat,
    scopes: Seq<Map<Seq<char>, LiteralView>>,
    echo: bool,
    host: Host,
    fuel: nat,
)
    requires
        scopes.len() > 0,
        0 <= from <= program.len(),
        unbound(scopes, name),
        !declared_in(program, name),
        stands_in(program, from, StmtView::Reassign(name, expr), depth),
        forall|chain: Seq<Map<Seq<char>, LiteralView>>|
            (#[trigger] evaluated(expr, chain, host)).result is Ok,
        exec_list(program, from, scopes, echo, host, fuel) is Some,
    ensures
        exec_list(program, from, scopes, echo, host, fuel)->Some_0.reports.contains(
            ActionView::Undefined(name),
        ),
        unbound(exec_list(program, from, scopes, echo, host, fuel)->Some_0.scopes, name),
        exec_list(program, from, scopes, echo, host, fuel)->Some_0.scopes.len() == scopes.len(),
    decreases depth, program.len() - from,
{
    let target = StmtView::Reassign(name, expr);
    let end = exec_list(program, from, scopes, echo, host, fuel)->Some_0;
    lemma_list_unbound(program, from, scopes, echo, host, fuel, name);
    lemma_list_names(program, from, scopes, echo, host, fuel);
    let at = choose|i: int|
        from <= i < program.len() && 0 <= i && if depth == 0 {
            (#[trigger] program[i]) == target
        } else {
            program[i] is Block && stands_in(program[i]->Block_0, 0, target, (depth - 1) as nat)
        };
    let first = exec_stmt(program[from], scopes, echo, host, fuel)->Some_0;
    let rest = exec_list(program, from + 1, first.scopes, echo, host, fuel)->Some_0;
    let report = ActionView::Undefined(name);
    assert(!declares(program[from], name));
    if at == from {
        if depth == 0 {
            lemma_reassign_undefined(name, expr, scopes, echo, host, fuel);
            assert(evaluated(expr, scopes, host).result is Ok);
            assert(first.reports[0] == report);
        } else {
            let body = program[from]->Block_0;
            let inside = scopes.push(Map::empty());
            let less = (fuel - 1) as nat;
            assert forall|i: int| 0 <= i < inside.len() implies !(
            #[trigger] inside[i]).contains_key(name) by {
                if i < scopes.len() {
                    assert(inside[i] == scopes[i]);
                }
            }
            assert(!declared_in(body, name)) by {
                if declared_in(body, name) {
                    let inner = choose|i: int|
                        0 <= i < body.len() && declares(#[trigger] body[i], name);
                    assert(declares(body[inner], name));
                    assert(declares(program[from], name));
                }
            }
            lemma_reassign_miss_anywhere(
                body,
                0,
                name,
                expr,
                (depth - 1) as nat,
                inside,
                echo,
                host,
                less,
            );
            let inner = exec_list(body, 0, inside, echo, host, less)->Some_0;
            assert(first.reports == inner.reports);
        }
        let found = choose|i: int| 0 <= i < first.reports.len() && first.reports[i] == report;
        assert(end.reports[found] == report);
    } else {
        lemma_stmt_unbound(program[from], scopes, echo, host, fuel, name);
        lemma_stmt_names(program[from], scopes, echo, host, fuel);
        assert(stands_in(program, from + 1, target, depth)) by {
            assert(from + 1 <= at < program.len());
        }
        lemma_reassign_miss_anywhere(
            program,
            from + 1,
            name,
            expr,
            depth,
            first.scopes,
            echo,
            host,
            fuel,
        );
        let found = choose|i: int| 0 <= i < rest.reports.len() && rest.reports[i] == report;
        assert(end.reports[first.reports.len() + found] == report);
    }
}


impl Machine {
    /// Reassign-miss on the machine: a program is loaded over a scope chain
    /// of any depth in which no scope binds a name, and it declares the name
    /// nowhere. Where it holds `name = value` for a literal value, at its top
    /// level or any number of blocks deep, the machine tells the host that
    /// the variable is undefined, and when the program is done the chain is
    /// as deep as before and no scope binds the name.
    pub proof fn lemma_reassign_miss_run(
        self,
        program: Seq<StmtView>,
        name: Seq<char>,
        value: LiteralView,
        depth: nat,
        host: Host,
        fuel: nat,
    )
        requires
            answers_in_kind(host),
            self.scopes.len() > 0,
            unbound(self.scopes, name),
            !declared_in(program, name),
            stands_in(program, 0, StmtView::Reassign(name, ExprView::Literal(value)), depth),
            exec_list(program, 0, self.scopes, self.echo, host, fuel) is Some,
        ensures
            ({
                let steps = exec_list(program, 0, self.scopes, self.echo, host, fuel)->Some_0.steps;
                let end = self.loaded(program).run(host, steps);
                &&& end.reports.contains(ActionView::Undefined(name))
                &&& end.machine.step().action == ActionView::Done
                &&& end.machine.scopes.len() == self.scopes.len()
                &&& unbound(end.machine.scopes, name)
            }),
    {
        let expr = ExprView::Literal(value);
        assert forall|chain: Seq<Map<Seq<char>, LiteralView>>|
            (#[trigger] evaluated(expr, chain, host)).result is Ok by {}
        lemma_reassign_miss_anywhere(
            program,
            0,
            name,
            expr,
            depth,
            self.scopes,
            self.echo,
            host,
            fuel,
        );
        self.lemma_program(program, host, fuel);
    }
}

} // verus!

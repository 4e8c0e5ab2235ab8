//! What an expression evaluates to, as one function of the expression, the
//! scope chain and the host's answers; and the proof that the machine, run
//! against a host, computes exactly that.

use crate::errors::LiteralOpError;
use crate::expr::ExprView;
use crate::machine::{
    lemma_pushed, lookup, unwound, ActionView, Machine, Stepped, WorkView,
};
use crate::token::{is_decimal, Operator, Unary};
use crate::value::{LiteralView, OutcomeView, ReplyView, RequestView};
use vstd::prelude::*;

verus! {

/// A host, by the answer that it gives to each request.
pub type Host = spec_fn(RequestView) -> ReplyView;

/// Whether the host answers every request in kind: `Show` with a text, the
/// other requests with a bit pattern.
pub open spec fn answers_in_kind(host: Host) -> bool {
    forall|request: RequestView| (#[trigger] request.answered(host(request))) is Some
}

/// The value that the host's answer to a request stands for.
pub open spec fn answer_of(request: RequestView, host: Host) -> LiteralView {
    request.answered(host(request)).unwrap()
}

/// A result, and the number of transitions that the machine takes to it.
pub struct Evaluated {
    pub result: Result<LiteralView, LiteralOpError>,
    pub steps: nat,
}

/// What an outcome comes to once the host has answered: the requests are
/// followed for at most `fuel` operands that the host replaces.
pub open spec fn settled(outcome: OutcomeView, host: Host, fuel: nat) -> Evaluated
    decreases fuel,
{
    match outcome {
        OutcomeView::Value(value) => Evaluated { result: Ok(value), steps: 0 },
        OutcomeView::Error(error) => Evaluated { result: Err(error), steps: 0 },
        OutcomeView::Whole(request) => Evaluated {
            result: Ok(answer_of(request, host)),
            steps: 0,
        },
        OutcomeView::Left(request, op, right) => if fuel == 0 {
            Evaluated { result: Err(LiteralOpError::InvalidTypeError), steps: 0 }
        } else {
            let next = settled(
                answer_of(request, host).binary(op, right),
                host,
                (fuel - 1) as nat,
            );
            Evaluated { result: next.result, steps: next.steps + 1 }
        },
        OutcomeView::Right(left, op, request) => if fuel == 0 {
            Evaluated { result: Err(LiteralOpError::InvalidTypeError), steps: 0 }
        } else {
            let next = settled(
                left.binary(op, answer_of(request, host)),
                host,
                (fuel - 1) as nat,
            );
            Evaluated { result: next.result, steps: next.steps + 1 }
        },
    }
}

/// Whether following the requests of an outcome ends within `fuel` operands
/// that the host replaces.
pub open spec fn settles(outcome: OutcomeView, host: Host, fuel: nat) -> bool
    decreases fuel,
{
    match outcome {
        OutcomeView::Left(request, op, right) => fuel > 0 && settles(
            answer_of(request, host).binary(op, right),
            host,
            (fuel - 1) as nat,
        ),
        OutcomeView::Right(left, op, request) => fuel > 0 && settles(
            left.binary(op, answer_of(request, host)),
            host,
            (fuel - 1) as nat,
        ),
        _ => true,
    }
}

/// The value of a binary operator on two values, under a host.
pub open spec fn binary_value(
    left: LiteralView,
    op: Operator,
    right: LiteralView,
    host: Host,
) -> Evaluated {
    settled(left.binary(op, right), host, 2)
}

/// The value of a unary operator on a value.
pub open spec fn unary_value(op: Unary, operand: LiteralView) -> Result<
    LiteralView,
    LiteralOpError,
> {
    match op {
        Unary::Not => Ok(LiteralView::Bool(!operand.is_truthy())),
        Unary::Neg => operand.negate(),
    }
}

/// The value of an expression over a scope chain, under a host: the left
/// operand is evaluated before the right one, and the first failure is the
/// result. A name has the value of the innermost scope that binds it. A
/// number written with a decimal point is the host's to read; a text that
/// writes none is rejected. `steps` is the number of transitions that the
/// machine takes for it.
pub open spec fn evaluated(
    expr: ExprView,
    scopes: Seq<Map<Seq<char>, LiteralView>>,
    host: Host,
) -> Evaluated
    decreases expr,
{
    match expr {
        ExprView::Literal(value) => Evaluated { result: Ok(value), steps: 1 },
        ExprView::Decimal(text) => Evaluated {
            result: if is_decimal(text) {
                Ok(answer_of(RequestView::Parse(text), host))
            } else {
                Err(LiteralOpError::InvalidTypeError)
            },
            steps: 1,
        },
        ExprView::Ident(name) => Evaluated {
            result: match lookup(scopes, name) {
                Some(value) => Ok(value),
                None => Err(LiteralOpError::UndefinedVariableError),
            },
            steps: 1,
        },
        ExprView::Binary(op, left, right) => {
            let first = evaluated(*left, scopes, host);
            match first.result {
                Err(error) => Evaluated { result: Err(error), steps: 1 + first.steps },
                Ok(l) => {
                    let second = evaluated(*right, scopes, host);
                    match second.result {
                        Err(error) => Evaluated {
                            result: Err(error),
                            steps: 1 + first.steps + second.steps,
                        },
                        Ok(r) => {
                            let applied = binary_value(l, op, r, host);
                            Evaluated {
                                result: applied.result,
                                steps: 1 + first.steps + second.steps + 1 + applied.steps,
                            }
                        },
                    }
                },
            }
        },
        ExprView::Unary(op, operand) => {
            let inner = evaluated(*operand, scopes, host);
            match inner.result {
                Err(error) => Evaluated { result: Err(error), steps: 1 + inner.steps },
                Ok(value) => Evaluated {
                    result: unary_value(op, value),
                    steps: 1 + inner.steps + 1,
                },
            }
        },
    }
}

/// The value of an expression over a scope chain, under a host.
pub open spec fn value_of(
    expr: ExprView,
    scopes: Seq<Map<Seq<char>, LiteralView>>,
    host: Host,
) -> Result<LiteralView, LiteralOpError> {
    evaluated(expr, scopes, host).result
}

/// A machine, and what it has told its host so far.
pub struct Trace {
    pub machine: Machine,
    /// The actions other than `Continue`, `Ask` and `Done`, in order.
    pub reports: Seq<ActionView>,
}

/// What the host makes of a transition: it answers where the machine asks,
/// and takes note of what the machine prints or reports.
pub open spec fn attended(next: Stepped, host: Host) -> Trace {
    match next.action {
        ActionView::Ask(request) => Trace {
            machine: next.machine.answered(host(request)),
            reports: Seq::empty(),
        },
        ActionView::Continue => Trace { machine: next.machine, reports: Seq::empty() },
        ActionView::Done => Trace { machine: next.machine, reports: Seq::empty() },
        report => Trace { machine: next.machine, reports: seq![report] },
    }
}

impl Machine {
    /// One transition, and the host's answer where the machine asks.
    pub open spec fn served(self, host: Host) -> Trace {
        attended(self.step(), host)
    }

    /// The machine after `steps` transitions against the host, and what it
    /// has told the host on the way.
    #[verifier::opaque]
    pub open spec fn run(self, host: Host, steps: nat) -> Trace
        decreases steps,
    {
        if steps == 0 {
            Trace { machine: self, reports: Seq::empty() }
        } else {
            let first = self.served(host);
            let rest = first.machine.run(host, (steps - 1) as nat);
            Trace { machine: rest.machine, reports: first.reports + rest.reports }
        }
    }

    /// The machine after the evaluation that its next item of work starts:
    /// the value is on the stack of values; or, where the evaluation failed,
    /// the statement is dropped and the failure reported.
    pub open spec fn concluded(self, result: Result<LiteralView, LiteralOpError>) -> Trace {
        match result {
            Ok(value) => Trace {
                machine: Machine {
                    work: self.work.drop_last(),
                    values: self.values.push(value),
                    ..self
                },
                reports: Seq::empty(),
            },
            Err(error) => Trace {
                machine: Machine {
                    work: unwound(self.work.drop_last()),
                    values: Seq::empty(),
                    ..self
                },
                reports: seq![ActionView::Failed(error)],
            },
        }
    }

    /// No transition leaves the machine where it is.
    pub proof fn lemma_run_none(self, host: Host)
        ensures
            self.run(host, 0) == (Trace { machine: self, reports: Seq::empty() }),
    {
        reveal(Machine::run);
    }

    /// One transition of a run is one transition against the host.
    pub proof fn lemma_run_one(self, host: Host)
        ensures
            self.run(host, 1) == self.served(host),
    {
        reveal(Machine::run);
        let first = self.served(host);
        assert(first.machine.run(host, 0).reports =~= Seq::empty());
        assert(first.reports + Seq::<ActionView>::empty() =~= first.reports);
    }

    /// Running on is running from where a first run ended.
    pub proof fn lemma_run_on(self, host: Host, first: nat, then: nat)
        ensures
            self.run(host, first + then) == (Trace {
                machine: self.run(host, first).machine.run(host, then).machine,
                reports: self.run(host, first).reports + self.run(host, first).machine.run(
                    host,
                    then,
                ).reports,
            }),
        decreases first,
    {
        reveal(Machine::run);
        let after = self.run(host, first);
        if first == 0 {
            assert(Seq::<ActionView>::empty() + self.run(host, then).reports =~= self.run(
                host,
                then,
            ).reports);
        } else {
            let one = self.served(host);
            one.machine.lemma_run_on(host, (first - 1) as nat, then);
            let middle = one.machine.run(host, (first - 1) as nat);
            assert(one.reports + (middle.reports + middle.machine.run(host, then).reports) =~= (
            one.reports + middle.reports) + middle.machine.run(host, then).reports);
        }
    }

    /// A run that reports nothing, followed by another, reports what the
    /// other reports.
    proof fn lemma_run_then(self, host: Host, first: nat, middle: Machine, then: nat)
        requires
            self.run(host, first) == (Trace { machine: middle, reports: Seq::empty() }),
        ensures
            self.run(host, first + then) == middle.run(host, then),
    {
        self.lemma_run_on(host, first, then);
        assert(Seq::<ActionView>::empty() + middle.run(host, then).reports =~= middle.run(
            host,
            then,
        ).reports);
    }
}

/// A binary operator on two floats, or on two strings, asks for no operand
/// to be replaced.
proof fn lemma_alike_operands(left: LiteralView, op: Operator, right: LiteralView)
    requires
        (left is Float && right is Float) || (left is String && right is String),
    ensures
        !(left.binary(op, right) is Left),
        !(left.binary(op, right) is Right),
{
}

/// Where a binary operator asks for an operand to be replaced, it is a
/// number to be converted for an operation with a number or a float, or a
/// float to be shown for a concatenation with a string.
proof fn lemma_replaced_operand(left: LiteralView, op: Operator, right: LiteralView)
    ensures
        match left.binary(op, right) {
            OutcomeView::Left(request, _, operand) => operand == right && ((request is Convert
                && (right is Number || right is Float)) || (request is Show && right is String)),
            OutcomeView::Right(operand, _, request) => operand == left && ((request is Convert
                && left is Float) || (request is Show && left is String)),
            _ => true,
        },
{
}

/// Under a host that answers in kind, a binary operator comes to its value
/// after at most two operands were replaced by the host: a number by its
/// float, or a float by its text.
pub proof fn lemma_binary_settles(left: LiteralView, op: Operator, right: LiteralView, host: Host)
    requires
        answers_in_kind(host),
    ensures
        settles(left.binary(op, right), host, 2),
{
    reveal_with_fuel(settles, 3);
    lemma_replaced_operand(left, op, right);
    match left.binary(op, right) {
        OutcomeView::Left(request, next, operand) => {
            assert(request.answered(host(request)) is Some);
            let replaced = answer_of(request, host);
            lemma_replaced_operand(replaced, next, operand);
            if request is Show || operand is Float {
                lemma_alike_operands(replaced, next, operand);
            } else {
                match replaced.binary(next, operand) {
                    OutcomeView::Left(again, _, _) => {},
                    OutcomeView::Right(same, last, again) => {
                        assert(again.answered(host(again)) is Some);
                        lemma_alike_operands(same, last, answer_of(again, host));
                    },
                    _ => {},
                }
            }
        },
        OutcomeView::Right(operand, next, request) => {
            assert(request.answered(host(request)) is Some);
            let replaced = answer_of(request, host);
            lemma_alike_operands(operand, next, replaced);
        },
        _ => {},
    }
}

impl Machine {
    /// The machine with the result of an operator: its value on the stack of
    /// values, or the statement dropped and the failure reported.
    pub open spec fn finished(self, result: Result<LiteralView, LiteralOpError>) -> Trace {
        match result {
            Ok(value) => Trace { machine: self.with_value(value), reports: Seq::empty() },
            Err(error) => Trace {
                machine: self.failed(error).machine,
                reports: seq![ActionView::Failed(error)],
            },
        }
    }

    /// The transition for an operator that waits on the stack of work with
    /// its operands on the stack of values.
    proof fn lemma_operator_step(
        self,
        under: Machine,
        op: Operator,
        left: LiteralView,
        right: LiteralView,
        flipped: bool,
    )
        requires
            self.waiting is None,
            under.waiting is None,
            self == (Machine {
                work: under.work.push(
                    if flipped {
                        WorkView::Flipped(op)
                    } else {
                        WorkView::Apply(op)
                    },
                ),
                values: if flipped {
                    under.values.push(right).push(left)
                } else {
                    under.values.push(left).push(right)
                },
                ..under
            }),
        ensures
            self.step() == under.applied(left.binary(op, right)),
    {
        let n = under.values.len() as int;
        lemma_pushed(under.work, self.work.last());
        assert(self.values.take(n) =~= under.values);
        assert((Machine { work: self.work.drop_last(), ..self }).without_values(2) == under);
    }

    /// From the outcome of a binary operator the machine goes, with the
    /// host's answers, to the value that the outcome settles to.
    proof fn lemma_chain(self, outcome: OutcomeView, host: Host, fuel: nat)
        requires
            answers_in_kind(host),
            self.waiting is None,
            settles(outcome, host, fuel),
        ensures
            ({
                let first = attended(self.applied(outcome), host);
                let rest = first.machine.run(host, settled(outcome, host, fuel).steps);
                (Trace { machine: rest.machine, reports: first.reports + rest.reports })
                    == self.finished(settled(outcome, host, fuel).result)
            }),
        decreases fuel,
    {
        let first = attended(self.applied(outcome), host);
        let steps = settled(outcome, host, fuel).steps;
        let rest = first.machine.run(host, steps);
        match outcome {
            OutcomeView::Value(value) => {
                first.machine.lemma_run_none(host);
                assert(first.reports + rest.reports =~= Seq::empty());
            },
            OutcomeView::Error(error) => {
                first.machine.lemma_run_none(host);
                assert(first.reports + rest.reports =~= seq![ActionView::Failed(error)]);
            },
            OutcomeView::Whole(request) => {
                first.machine.lemma_run_none(host);
                assert(request.answered(host(request)) is Some);
                assert(first.reports + rest.reports =~= Seq::empty());
            },
            OutcomeView::Left(request, op, right) => {
                assert(request.answered(host(request)) is Some);
                let replaced = answer_of(request, host);
                let next = replaced.binary(op, right);
                let waiting = first.machine;
                waiting.lemma_operator_step(self, op, replaced, right, true);
                self.lemma_chain(next, host, (fuel - 1) as nat);
                let second = attended(self.applied(next), host);
                let further = settled(next, host, (fuel - 1) as nat).steps;
                let last = second.machine.run(host, further);
                waiting.lemma_run_one(host);
                waiting.lemma_run_on(host, 1, further);
                assert(rest.reports == second.reports + last.reports);
                assert(first.reports + rest.reports =~= second.reports + last.reports);
            },
            OutcomeView::Right(left, op, request) => {
                assert(request.answered(host(request)) is Some);
                let replaced = answer_of(request, host);
                let next = left.binary(op, replaced);
                let waiting = first.machine;
                waiting.lemma_operator_step(self, op, left, replaced, false);
                self.lemma_chain(next, host, (fuel - 1) as nat);
                let second = attended(self.applied(next), host);
                let further = settled(next, host, (fuel - 1) as nat).steps;
                let last = second.machine.run(host, further);
                waiting.lemma_run_one(host);
                waiting.lemma_run_on(host, 1, further);
                assert(rest.reports == second.reports + last.reports);
                assert(first.reports + rest.reports =~= second.reports + last.reports);
            },
        }
    }

    /// The machine applies a binary operator to the two latest values as
    /// `binary_value` says.
    proof fn lemma_operator(
        self,
        under: Machine,
        op: Operator,
        left: LiteralView,
        right: LiteralView,
        host: Host,
    )
        requires
            answers_in_kind(host),
            under.waiting is None,
            self == (Machine {
                work: under.work.push(WorkView::Apply(op)),
                values: under.values.push(left).push(right),
                ..under
            }),
        ensures
            self.run(host, 1 + binary_value(left, op, right, host).steps) == under.finished(
                binary_value(left, op, right, host).result,
            ),
    {
        let applied = binary_value(left, op, right, host);
        lemma_binary_settles(left, op, right, host);
        self.lemma_operator_step(under, op, left, right, false);
        under.lemma_chain(left.binary(op, right), host, 2);
        self.lemma_run_one(host);
        self.lemma_run_on(host, 1, applied.steps);
    }

    /// The machine applies a unary operator to the latest value as
    /// `unary_value` says.
    proof fn lemma_unary(self, under: Machine, op: Unary, operand: LiteralView, host: Host)
        requires
            under.waiting is None,
            self == (Machine {
                work: under.work.push(WorkView::Unary(op)),
                values: under.values.push(operand),
                ..under
            }),
        ensures
            self.run(host, 1) == under.finished(unary_value(op, operand)),
    {
        let n = under.values.len() as int;
        lemma_pushed(under.work, WorkView::Unary(op));
        assert(self.values.take(n) =~= under.values);
        assert((Machine { work: self.work.drop_last(), ..self }).without_values(1) == under);
        self.lemma_run_one(host);
    }

    /// The transition that starts the evaluation of an operator's operands.
    proof fn lemma_operands_step(self, expr: ExprView, host: Host)
        requires
            self.waiting is None,
            self.work.len() > 0,
            self.work.last() == WorkView::Eval(expr),
            expr is Binary || expr is Unary,
        ensures
            self.run(host, 1) == (Trace {
                machine: match expr {
                    ExprView::Binary(op, left, right) => Machine {
                        work: self.work.drop_last().push(WorkView::Apply(op)).push(
                            WorkView::Eval(*right),
                        ).push(WorkView::Eval(*left)),
                        ..self
                    },
                    ExprView::Unary(op, operand) => Machine {
                        work: self.work.drop_last().push(WorkView::Unary(op)).push(
                            WorkView::Eval(*operand),
                        ),
                        ..self
                    },
                    _ => self,
                },
                reports: Seq::empty(),
            }),
    {
        self.lemma_run_one(host);
    }

    /// The machine evaluates a literal or a name as `evaluated` says.
    proof fn lemma_leaf(self, expr: ExprView, host: Host)
        requires
            answers_in_kind(host),
            self.waiting is None,
            self.work.len() > 0,
            self.work.last() == WorkView::Eval(expr),
            !(expr is Binary),
            !(expr is Unary),
        ensures
            self.run(host, 1) == self.concluded(value_of(expr, self.scopes, host)),
    {
        self.lemma_run_one(host);
        match expr {
            ExprView::Decimal(text) => {
                assert(RequestView::Parse(text).answered(host(RequestView::Parse(text))) is Some);
            },
            _ => {},
        }
    }

    /// The work that is left when the statement is dropped while an operand
    /// is evaluated is the work that is left when it is dropped before.
    proof fn lemma_unwound_operands(self, expr: ExprView)
        ensures
            match expr {
                ExprView::Binary(op, left, right) => unwound(self.work.push(WorkView::Apply(op)))
                    == unwound(self.work) && unwound(
                    self.work.push(WorkView::Apply(op)).push(WorkView::Eval(*right)),
                ) == unwound(self.work),
                ExprView::Unary(op, operand) => unwound(self.work.push(WorkView::Unary(op)))
                    == unwound(self.work),
                _ => true,
            },
    {
        match expr {
            ExprView::Binary(op, left, right) => {
                let first = self.work.push(WorkView::Apply(op));
                lemma_pushed(self.work, WorkView::Apply(op));
                lemma_pushed(first, WorkView::Eval(*right));
                assert(unwound(first) == unwound(self.work));
                assert(unwound(first.push(WorkView::Eval(*right))) == unwound(first));
            },
            ExprView::Unary(op, operand) => {
                lemma_pushed(self.work, WorkView::Unary(op));
            },
            _ => {},
        }
    }

    /// The machine evaluates expressions as `evaluated` says: from a state
    /// whose next item of work is to evaluate an expression, it comes, in
    /// the number of transitions given there and against any host that
    /// answers in kind, to the state with the value of the expression on the
    /// stack of values; or, where the evaluation fails, to the state with
    /// the statement dropped, and it reports the failure once.
    pub proof fn lemma_evaluation(self, expr: ExprView, host: Host)
        requires
            answers_in_kind(host),
            self.waiting is None,
            self.work.len() > 0,
            self.work.last() == WorkView::Eval(expr),
        ensures
            self.run(host, evaluated(expr, self.scopes, host).steps) == self.concluded(
                value_of(expr, self.scopes, host),
            ),
        decreases expr,
    {
        let under = Machine { work: self.work.drop_last(), ..self };
        match expr {
            ExprView::Unary(op, operand) => {
                let inner = evaluated(*operand, self.scopes, host);
                self.lemma_operands_step(expr, host);
                under.lemma_unwound_operands(expr);
                let started = self.run(host, 1).machine;
                lemma_pushed(under.work.push(WorkView::Unary(op)), WorkView::Eval(*operand));
                started.lemma_evaluation(*operand, host);
                self.lemma_run_then(host, 1, started, inner.steps);
                match inner.result {
                    Err(error) => {},
                    Ok(value) => {
                        let ready = started.run(host, inner.steps).machine;
                        ready.lemma_unary(under, op, value, host);
                        self.lemma_run_then(host, 1 + inner.steps, ready, 1);
                    },
                }
            },
            ExprView::Binary(op, left, right) => {
                let first = evaluated(*left, self.scopes, host);
                self.lemma_operands_step(expr, host);
                under.lemma_unwound_operands(expr);
                let started = self.run(host, 1).machine;
                let pending = under.work.push(WorkView::Apply(op));
                lemma_pushed(pending, WorkView::Eval(*right));
                lemma_pushed(pending.push(WorkView::Eval(*right)), WorkView::Eval(*left));
                started.lemma_evaluation(*left, host);
                self.lemma_run_then(host, 1, started, first.steps);
                match first.result {
                    Err(error) => {},
                    Ok(l) => {
                        let second = evaluated(*right, self.scopes, host);
                        let half = started.run(host, first.steps).machine;
                        half.lemma_evaluation(*right, host);
                        self.lemma_run_then(host, 1 + first.steps, half, second.steps);
                        match second.result {
                            Err(error) => {},
                            Ok(r) => {
                                let ready = half.run(host, second.steps).machine;
                                let applied = binary_value(l, op, r, host);
                                ready.lemma_operator(under, op, l, r, host);
                                self.lemma_run_then(
                                    host,
                                    1 + first.steps + second.steps,
                                    ready,
                                    1 + applied.steps,
                                );
                            },
                        }
                    },
                }
            },
            _ => {
                self.lemma_leaf(expr, host);
            },
        }
    }
}


impl Machine {
    /// An expression that is evaluated on its own ends as the machine's
    /// result: once the machine has no work left, its result is the value of
    /// the expression over the scope chain as it stood; or, where the
    /// evaluation fails, the machine has no result and has reported the
    /// failure once. The scope chain is as it was.
    pub proof fn lemma_solved(self, expr: ExprView, host: Host)
        requires
            answers_in_kind(host),
        ensures
            ({
                let start = self.solving(expr);
                let end = start.run(host, evaluated(expr, self.scopes, host).steps + 1);
                let idle = Machine { work: Seq::empty(), values: Seq::empty(), ..start };
                &&& end.machine.step().action == ActionView::Done
                &&& end.machine.scopes == self.scopes
                &&& match value_of(expr, self.scopes, host) {
                    Ok(value) => end == (Trace {
                        machine: Machine { result: Some(value), ..idle },
                        reports: Seq::empty(),
                    }),
                    Err(error) => end == (Trace {
                        machine: idle,
                        reports: seq![ActionView::Failed(error)],
                    }),
                }
            }),
    {
        let start = self.solving(expr);
        let steps = evaluated(expr, start.scopes, host).steps;
        let under = seq![WorkView::Return];
        assert(start.work.drop_last() =~= under);
        assert(under.drop_last() =~= Seq::<WorkView>::empty());
        assert(unwound(under) =~= Seq::<WorkView>::empty());
        start.lemma_evaluation(expr, host);
        let evaluated = start.run(host, steps);
        start.lemma_run_on(host, steps, 1);
        evaluated.machine.lemma_run_one(host);
        match value_of(expr, start.scopes, host) {
            Ok(value) => {
                let last = evaluated.machine.served(host);
                assert(evaluated.machine.values.take(0) =~= Seq::<LiteralView>::empty());
                assert(evaluated.reports + last.reports =~= Seq::empty());
            },
            Err(error) => {
                let last = evaluated.machine.served(host);
                assert(evaluated.reports + last.reports =~= seq![ActionView::Failed(error)]);
            },
        }
    }
}

} // verus!

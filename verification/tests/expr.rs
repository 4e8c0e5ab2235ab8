use estel::errors::LiteralOpError;
use estel::executor::{Action, Executor};
use estel::expr::Expr;
use estel::scope::Scope;
use estel::stmt::{Block, Stmt};
use estel::token::{Operator, Unary};
use estel::value::{FloatOp, Literal, Reply, Request};

fn host(request: &Request) -> Reply {
    match request {
        Request::Parse(text) => Reply::Bits(text.parse::<f32>().unwrap().to_bits()),
        Request::Convert(n) => Reply::Bits((*n as f32).to_bits()),
        Request::Arith(op, a, b) => {
            let (x, y) = (f32::from_bits(*a), f32::from_bits(*b));
            let r = match op {
                FloatOp::Add => x + y,
                FloatOp::Sub => x - y,
                FloatOp::Mul => x * y,
                FloatOp::Div => x / y,
                FloatOp::Rem => x % y,
            };
            Reply::Bits(r.to_bits())
        }
        Request::Show(bits) => Reply::Text(f32::from_bits(*bits).to_string()),
    }
}

/// Evaluates the expression against the executor's scopes.
fn solve(expr: &Expr, executor: &mut Executor) -> Result<Literal, LiteralOpError> {
    expr.solve(executor);
    loop {
        match executor.step() {
            Action::Continue => {}
            Action::Ask(request) => assert!(executor.answer(host(&request))),
            Action::Failed(error) => {
                assert_eq!(Action::Done, executor.step());
                assert_eq!(None, executor.take_result());
                return Err(error);
            }
            Action::Done => return Ok(executor.take_result().unwrap()),
            other => panic!("unexpected action {:?}", other),
        }
    }
}

#[test]
fn make_num_literal() {
    assert_eq!(Expr::Literal(Literal::Number(8)), Expr::new_num_literal(8));
}

#[test]
fn make_basic_exprs() {
    let literal = Literal::Number(8);

    assert_eq!(
        Expr::Add(
            Box::new(Expr::Literal(literal.clone())),
            Box::new(Expr::Literal(literal.clone()))
        ),
        Expr::new_add(Expr::Literal(literal.clone()), Expr::Literal(literal.clone()))
    );
    assert_eq!(
        Expr::Sub(
            Box::new(Expr::Literal(literal.clone())),
            Box::new(Expr::Literal(literal.clone()))
        ),
        Expr::new_sub(Expr::Literal(literal.clone()), Expr::Literal(literal.clone()))
    );
    assert_eq!(
        Expr::Mul(
            Box::new(Expr::Literal(literal.clone())),
            Box::new(Expr::Literal(literal.clone()))
        ),
        Expr::new_mul(Expr::Literal(literal.clone()), Expr::Literal(literal.clone()))
    );
    assert_eq!(
        Expr::Div(
            Box::new(Expr::Literal(literal.clone())),
            Box::new(Expr::Literal(literal.clone()))
        ),
        Expr::new_div(Expr::Literal(literal.clone()), Expr::Literal(literal.clone()))
    );
}

#[test]
fn solve_numeric_exprs() {
    let exprs = [
        Expr::new_add(
            Expr::new_mul(Expr::new_num_literal(5), Expr::new_num_literal(5)),
            Expr::new_num_literal(3),
        ),
        Expr::new_mul(Expr::new_num_literal(4), Expr::new_num_literal(5)),
        Expr::new_mul(
            Expr::new_num_literal(5),
            Expr::new_add(Expr::new_num_literal(5), Expr::new_num_literal(3)),
        ),
        Expr::new_mul(
            Expr::new_mul(
                Expr::new_num_literal(5),
                Expr::new_add(Expr::new_num_literal(5), Expr::new_num_literal(3)),
            ),
            Expr::new_num_literal(2),
        ),
        Expr::new_mul(
            Expr::new_sub(Expr::new_num_literal(4), Expr::new_num_literal(2)),
            Expr::new_div(
                Expr::new_num_literal(7),
                Expr::new_add(Expr::new_num_literal(4), Expr::new_num_literal(3)),
            ),
        ),
        Expr::new_mul(
            Expr::new_sub(Expr::new_num_literal(5), Expr::new_num_literal(5)),
            Expr::new_add(Expr::new_num_literal(2), Expr::new_num_literal(8)),
        ),
    ];
    let solns = [
        Literal::Number(28),
        Literal::Number(20),
        Literal::Number(40),
        Literal::Number(80),
        Literal::Float(2.0f32.to_bits()),
        Literal::Number(0),
    ];
    for (expr, soln) in exprs.iter().zip(solns.iter()) {
        assert_eq!(solve(expr, &mut Executor::new(false, Scope::new())).unwrap(), *soln);
    }
}

#[test]
fn solve_relational_ops() {
    let exprs = [
        Expr::new_greater(Expr::new_num_literal(9), Expr::new_num_literal(9)),
        Expr::new_less(Expr::new_num_literal(6), Expr::new_num_literal(8)),
        Expr::new_greater_equal(Expr::new_num_literal(5), Expr::new_num_literal(5)),
        Expr::new_less_equal(Expr::new_num_literal(12), Expr::new_num_literal(8)),
        Expr::new_equal(Expr::new_num_literal(5), Expr::new_num_literal(5)),
        Expr::new_not_equal(Expr::new_num_literal(7), Expr::new_num_literal(7)),
        Expr::new_and(
            Expr::new_equal(Expr::new_num_literal(7), Expr::new_num_literal(7)),
            Expr::new_not_equal(Expr::new_num_literal(8), Expr::new_num_literal(8)),
        ),
        Expr::new_or(
            Expr::new_equal(Expr::new_num_literal(7), Expr::new_num_literal(7)),
            Expr::new_not_equal(Expr::new_num_literal(8), Expr::new_num_literal(8)),
        ),
        Expr::new_or(
            Expr::new_literal(&Literal::String("".to_owned())),
            Expr::new_literal(&Literal::Number(1)),
        ),
        Expr::new_and(
            Expr::new_literal(&Literal::String("".to_owned())),
            Expr::new_literal(&Literal::Bool(true)),
        ),
    ];
    let solns = [
        Literal::Bool(false),
        Literal::Bool(true),
        Literal::Bool(true),
        Literal::Bool(false),
        Literal::Bool(true),
        Literal::Bool(false),
        Literal::Bool(false),
        Literal::Bool(true),
        Literal::Bool(true),
        Literal::Bool(false),
    ];
    for (expr, soln) in exprs.iter().zip(solns.iter()) {
        assert_eq!(solve(expr, &mut Executor::new(false, Scope::new())).unwrap(), *soln);
    }
}

#[test]
fn subtraction_groups_to_the_left_when_evaluated() {
    let expr = Expr::new_sub(
        Expr::new_sub(Expr::new_num_literal(8), Expr::new_num_literal(3)),
        Expr::new_num_literal(2),
    );
    assert_eq!(Ok(Literal::Number(3)), solve(&expr, &mut Executor::new(false, Scope::new())));
}

#[test]
fn negated_operand_is_multiplied_first() {
    let expr = Expr::new_add(
        Expr::new_num_literal(6),
        Expr::new_mul(
            Expr::Negate(Box::new(Expr::new_num_literal(5))),
            Expr::new_num_literal(3),
        ),
    );
    assert_eq!(Ok(Literal::Number(-9)), solve(&expr, &mut Executor::new(false, Scope::new())));
}

#[test]
fn division_of_numbers_is_a_float() {
    let expr = Expr::new_div(Expr::new_num_literal(4), Expr::new_num_literal(2));
    assert_eq!(
        Ok(Literal::Float(2.0f32.to_bits())),
        solve(&expr, &mut Executor::new(false, Scope::new()))
    );
    let expr = Expr::new_div(Expr::new_num_literal(1), Expr::new_num_literal(3));
    assert_eq!(
        Ok(Literal::Float((1.0f32 / 3.0f32).to_bits())),
        solve(&expr, &mut Executor::new(false, Scope::new()))
    );
}

#[test]
fn string_times_number_on_either_side() {
    let mut executor = Executor::new(false, Scope::new());
    let hi = Literal::String("Hi".to_string());
    let left = Expr::new_mul(Expr::new_string_literal("Hi"), Expr::new_num_literal(3));
    let right = Expr::new_mul(Expr::new_num_literal(3), Expr::new_string_literal("Hi"));
    assert_eq!(Ok(Literal::String("HiHiHi".to_string())), solve(&left, &mut executor));
    assert_eq!(Ok(Literal::String("HiHiHi".to_string())), solve(&right, &mut executor));
    for count in [0, -1, -2147483648] {
        let none = Expr::new_mul(Expr::new_literal(&hi), Expr::new_num_literal(count));
        assert_eq!(Ok(Literal::String(String::new())), solve(&none, &mut executor));
    }
}

#[test]
fn names_are_read_from_the_scopes() {
    let mut global = Scope::new();
    global.insert_var("x".to_string(), Literal::Number(20));
    let mut executor = Executor::new(false, global);
    let expr = Expr::new_add(Expr::new_ident("x"), Expr::new_num_literal(1));
    assert_eq!(Ok(Literal::Number(21)), solve(&expr, &mut executor));
    let expr = Expr::new_add(Expr::new_ident("y"), Expr::new_num_literal(1));
    assert_eq!(Err(LiteralOpError::UndefinedVariableError), solve(&expr, &mut executor));
}

#[test]
fn solve_reads_the_innermost_binding_and_keeps_the_chain() {
    let outer = Scope::from_pairs(vec![
        ("a".to_string(), Literal::Number(1)),
        ("b".to_string(), Literal::Number(7)),
    ]);
    let inner = Scope::from_pairs(vec![("a".to_string(), Literal::Number(2))]);
    let mut executor = Executor::with_scopes(false, vec![outer, inner]);
    assert_eq!(Ok(Literal::Number(2)), solve(&Expr::new_ident("a"), &mut executor));
    assert_eq!(Ok(Literal::Number(7)), solve(&Expr::new_ident("b"), &mut executor));
    assert_eq!(
        Err(LiteralOpError::UndefinedVariableError),
        solve(&Expr::new_ident("c"), &mut executor)
    );
    assert_eq!(2, executor.depth());
    assert_eq!(Some(Literal::Number(2)), executor.get_var(&"a".to_string()));
    assert_eq!(Some(&Literal::Number(1)), executor.global().get_var(&"a".to_string()));
}

#[test]
fn solve_inside_a_block_reads_the_scope_of_the_block() {
    let global = Scope::from_pairs(vec![
        ("a".to_string(), Literal::Number(1)),
        ("b".to_string(), Literal::Number(7)),
    ]);
    let mut executor = Executor::new(false, global);
    executor.execute_code(Block::new(vec![Stmt::Block(vec![Stmt::Assign(
        "a".to_string(),
        Expr::new_num_literal(2),
    )])]));
    for _ in 0..4 {
        assert_eq!(Action::Continue, executor.step());
    }
    assert_eq!(2, executor.depth());
    assert_eq!(Some(Literal::Number(2)), executor.get_var(&"a".to_string()));
    assert_eq!(Ok(Literal::Number(2)), solve(&Expr::new_ident("a"), &mut executor));
    assert_eq!(Ok(Literal::Number(7)), solve(&Expr::new_ident("b"), &mut executor));
    assert_eq!(2, executor.depth());
}

#[test]
fn decimal_literal_is_converted_by_the_host() {
    let mut executor = Executor::new(false, Scope::new());
    assert_eq!(
        Ok(Literal::Float(25.08f32.to_bits())),
        solve(&Expr::new_decimal("25.08"), &mut executor)
    );
    assert_eq!(
        Ok(Literal::Float(7.0f32.to_bits())),
        solve(&Expr::new_decimal("7."), &mut executor)
    );
}

#[test]
fn nodes_from_operators() {
    let a = || Expr::new_ident("a");
    let b = || Expr::new_ident("b");
    assert_eq!(Expr::new_add(a(), b()), Expr::new_binary_op(a(), b(), &Operator::Add));
    assert_eq!(Expr::new_sub(a(), b()), Expr::new_binary_op(a(), b(), &Operator::Sub));
    assert_eq!(Expr::new_mul(a(), b()), Expr::new_binary_op(a(), b(), &Operator::Mul));
    assert_eq!(Expr::new_div(a(), b()), Expr::new_binary_op(a(), b(), &Operator::Div));
    assert_eq!(Expr::new_mod(a(), b()), Expr::new_binary_op(a(), b(), &Operator::Mod));
    assert_eq!(Expr::new_greater(a(), b()), Expr::new_binary_op(a(), b(), &Operator::Greater));
    assert_eq!(Expr::new_less(a(), b()), Expr::new_binary_op(a(), b(), &Operator::Less));
    assert_eq!(
        Expr::new_greater_equal(a(), b()),
        Expr::new_binary_op(a(), b(), &Operator::GreaterEqual)
    );
    assert_eq!(
        Expr::new_less_equal(a(), b()),
        Expr::new_binary_op(a(), b(), &Operator::LessEqual)
    );
    assert_eq!(Expr::new_equal(a(), b()), Expr::new_binary_op(a(), b(), &Operator::Equal));
    assert_eq!(
        Expr::new_not_equal(a(), b()),
        Expr::new_binary_op(a(), b(), &Operator::NotEqual)
    );
    assert_eq!(Expr::new_and(a(), b()), Expr::new_binary_op(a(), b(), &Operator::And));
    assert_eq!(Expr::new_or(a(), b()), Expr::new_binary_op(a(), b(), &Operator::Or));
    assert_eq!(Expr::Not(Box::new(a())), Expr::new_unary_op(a(), &Unary::Not));
    assert_eq!(Expr::Negate(Box::new(a())), Expr::new_unary_op(a(), &Unary::Neg));
    assert_eq!(Ok((Operator::Mod, a(), b())), Expr::new_mod(a(), b()).into_binary());
    assert_eq!(Err(a()), a().into_binary());
    assert_eq!(Expr::new_mod(a(), b()), Expr::new_mod(a(), b()).clone());
    assert_eq!(Expr::Literal(Literal::Bool(true)), Expr::new_bool_literal(true));
    assert_eq!(Expr::Literal(Literal::String("s".to_string())), Expr::new_string_literal("s"));
}

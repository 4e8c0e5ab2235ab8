use estel::errors::LiteralOpError;
use estel::executor::{Action, Executor};
use estel::expr::Expr;
use estel::lexer::Lexer;
use estel::parser::Parser;
use estel::scope::Scope;
use estel::stmt::{Block, Stmt};
use estel::value::{FloatOp, Literal, Reply, Request};

/// What the machine told its host, in order.
#[derive(Debug, PartialEq)]
enum Event {
    Printed(String),
    Failed(LiteralOpError),
    Undefined(String),
}

fn host(request: &Request) -> Reply {
    match request {
        Request::Parse(text) => Reply::Bits(text.parse::<f32>().unwrap().to_bits()),
        Request::Convert(n) => Reply::Bits((*n as f32).to_bits()),
        Request::Arith(op, a, b) => {
            let (x, y) = (f32::from_bits(*a), f32::from_bits(*b));
            let r = match op {
                FloatOp::Add => x + y,
                FloatOp::Sub => x - y,
                FloatOp::Mul => x * y,
                FloatOp::Div => x / y,
                FloatOp::Rem => x % y,
            };
            Reply::Bits(r.to_bits())
        }
        Request::Show(bits) => Reply::Text(f32::from_bits(*bits).to_string()),
    }
}

fn run(executor: &mut Executor) -> Vec<Event> {
    let mut events = Vec::new();
    loop {
        match executor.step() {
            Action::Continue => {}
            Action::Print(text) => events.push(Event::Printed(text)),
            Action::Failed(error) => events.push(Event::Failed(error)),
            Action::Undefined(name) => events.push(Event::Undefined(name)),
            Action::Ask(request) => assert!(executor.answer(host(&request))),
            Action::Done => return events,
        }
    }
}

fn execute(executor: &mut Executor, source: &str) -> Vec<Event> {
    let tokens = Lexer::new(source).lex();
    let program = Parser::new(&tokens).parse().unwrap();
    executor.execute_code(program);
    run(executor)
}

fn printed(lines: &[&str]) -> Vec<Event> {
    lines.iter().map(|line| Event::Printed(line.to_string())).collect()
}

fn float(value: f32) -> Literal {
    Literal::Float(value.to_bits())
}

fn assert_scope(scope: &Scope, expected: &[(&str, Literal)]) {
    assert_eq!(expected.len(), scope.len());
    for (name, value) in expected {
        assert_eq!(Some(value), scope.get_var(&name.to_string()));
    }
}

fn compare_scopes(blocks: Vec<Block>, expected: Vec<Vec<(&str, Literal)>>) {
    assert_eq!(blocks.len(), expected.len());
    for (block, expected) in blocks.into_iter().zip(expected) {
        let mut executor = Executor::new(false, Scope::new());
        executor.execute_code(block);
        run(&mut executor);
        assert_scope(executor.global(), &expected);
    }
}

#[test]
fn execute_basic_blocks() {
    let blocks = vec![
        Block::new(vec![
            Stmt::Assign(
                String::from("a"),
                Expr::new_add(Expr::new_num_literal(3), Expr::new_num_literal(3)),
            ),
            Stmt::Assign(String::from("b"), Expr::new_string_literal("hello")),
            Stmt::Assign(
                String::from("c"),
                Expr::new_mul(Expr::Ident(String::from("a")), Expr::Ident(String::from("b"))),
            ),
            Stmt::Reassign(String::from("b"), Expr::new_num_literal(8)),
        ]),
        Block::new(vec![
            Stmt::Assign(String::from("a"), Expr::new_bool_literal(true)),
            Stmt::Assign(String::from("b"), Expr::new_num_literal(5)),
            Stmt::Assign(
                String::from("c"),
                Expr::new_mul(Expr::Ident(String::from("a")), Expr::Ident(String::from("b"))),
            ),
        ]),
    ];
    let expected_scopes = vec![
        vec![
            ("a", Literal::Number(6)),
            ("b", Literal::Number(8)),
            ("c", Literal::String(String::from("hellohellohellohellohellohello"))),
        ],
        vec![("a", Literal::Bool(true)), ("b", Literal::Number(5))],
    ];

    compare_scopes(blocks, expected_scopes);
}

#[test]
fn execute_nested_blocks() {
    let blocks = vec![
        Block::new(vec![
            Stmt::Assign(String::from("a"), Expr::new_num_literal(3)),
            Stmt::Block(vec![
                Stmt::Assign(String::from("a"), Expr::new_num_literal(5)),
                Stmt::Assign(String::from("b"), Expr::Ident(String::from("a"))),
            ]),
        ]),
        Block::new(vec![
            Stmt::Assign(String::from("a"), Expr::new_num_literal(9)),
            Stmt::Assign(String::from("c"), Expr::new_string_literal("")),
            Stmt::Block(vec![
                Stmt::Assign(String::from("a"), Expr::new_num_literal(5)),
                Stmt::Assign(String::from("b"), Expr::Ident(String::from("a"))),
                Stmt::Block(vec![
                    Stmt::Assign(String::from("a"), Expr::new_num_literal(8)),
                    Stmt::Reassign(String::from("b"), Expr::Ident(String::from("a"))),
                ]),
                Stmt::Reassign(
                    String::from("c"),
                    Expr::new_mul(
                        Expr::Ident(String::from("a")),
                        Expr::Ident(String::from("b")),
                    ),
                ),
            ]),
        ]),
    ];
    let expected_scopes = vec![
        vec![("a", Literal::Number(3))],
        vec![("a", Literal::Number(9)), ("c", Literal::Number(40))],
    ];

    compare_scopes(blocks, expected_scopes);
}

#[test]
fn execute_basic_while_loop() {
    let blocks = vec![
        Block::new(vec![
            Stmt::Assign(String::from("a"), Expr::new_num_literal(5)),
            Stmt::Assign(String::from("b"), Expr::new_num_literal(3)),
            Stmt::While(
                Expr::new_not_equal(Expr::new_ident("a"), Expr::new_num_literal(0)),
                vec![
                    Stmt::Reassign(
                        String::from("b"),
                        Expr::new_add(Expr::new_ident("b"), Expr::new_num_literal(1)),
                    ),
                    Stmt::Reassign(
                        String::from("a"),
                        Expr::new_sub(Expr::new_ident("a"), Expr::new_num_literal(1)),
                    ),
                ],
            ),
        ]),
        Block::new(vec![
            Stmt::Assign(String::from("a"), Expr::new_string_literal("Hello")),
            Stmt::Assign(String::from("b"), Expr::new_string_literal("")),
            Stmt::Assign(String::from("i"), Expr::new_num_literal(3)),
            Stmt::While(
                Expr::new_not_equal(Expr::new_ident("i"), Expr::new_num_literal(0)),
                vec![
                    Stmt::Reassign(
                        String::from("b"),
                        Expr::new_add(Expr::new_ident("b"), Expr::new_ident("a")),
                    ),
                    Stmt::Reassign(
                        String::from("i"),
                        Expr::new_sub(Expr::new_ident("i"), Expr::new_num_literal(1)),
                    ),
                ],
            ),
        ]),
        Block::new(vec![
            Stmt::Assign(String::from("a"), Expr::new_bool_literal(true)),
            Stmt::Assign(String::from("num"), Expr::new_num_literal(4)),
            Stmt::Assign(String::from("i"), Expr::new_num_literal(30)),
            Stmt::While(
                Expr::new_and(
                    Expr::new_not_equal(Expr::new_ident("i"), Expr::new_num_literal(0)),
                    Expr::new_ident("a"),
                ),
                vec![
                    Stmt::Reassign(
                        String::from("num"),
                        Expr::new_add(Expr::new_ident("num"), Expr::new_num_literal(1)),
                    ),
                    Stmt::Reassign(
                        String::from("a"),
                        Expr::new_not_equal(
                            Expr::new_sub(Expr::new_ident("num"), Expr::new_num_literal(8)),
                            Expr::new_num_literal(0),
                        ),
                    ),
                    Stmt::Reassign(
                        String::from("i"),
                        Expr::new_sub(Expr::new_ident("i"), Expr::new_num_literal(1)),
                    ),
                ],
            ),
        ]),
    ];
    let expected_scope = vec![
        vec![("a", Literal::Number(0)), ("b", Literal::Number(8))],
        vec![
            ("a", Literal::String(String::from("Hello"))),
            ("b", Literal::String(String::from("HelloHelloHello"))),
            ("i", Literal::Number(0)),
        ],
        vec![
            ("a", Literal::Bool(false)),
            ("num", Literal::Number(8)),
            ("i", Literal::Number(26)),
        ],
    ];
    compare_scopes(blocks, expected_scope);
}

#[test]
fn execute_nested_while_loop() {
    let blocks = vec![
        Block::new(vec![
            Stmt::Assign(String::from("a"), Expr::new_num_literal(0)),
            Stmt::Assign(String::from("i"), Expr::new_num_literal(5)),
            Stmt::Assign(String::from("j"), Expr::new_num_literal(5)),
            Stmt::While(
                Expr::new_not_equal(Expr::new_ident("i"), Expr::new_num_literal(0)),
                vec![
                    Stmt::While(
                        Expr::new_not_equal(Expr::new_ident("j"), Expr::new_num_literal(0)),
                        vec![
                            Stmt::Reassign(
                                String::from("a"),
                                Expr::new_add(Expr::new_ident("a"), Expr::new_num_literal(1)),
                            ),
                            Stmt::Reassign(
                                String::from("j"),
                                Expr::new_sub(Expr::new_ident("j"), Expr::new_num_literal(1)),
                            ),
                        ],
                    ),
                    Stmt::Reassign(
                        String::from("i"),
                        Expr::new_sub(Expr::new_ident("i"), Expr::new_num_literal(1)),
                    ),
                    Stmt::Reassign(String::from("j"), Expr::new_num_literal(5)),
                ],
            ),
        ]),
        Block::new(vec![
            Stmt::Assign(String::from("a"), Expr::new_num_literal(0)),
            Stmt::Assign(String::from("i"), Expr::new_num_literal(5)),
            Stmt::While(
                Expr::new_not_equal(Expr::new_ident("i"), Expr::new_num_literal(0)),
                vec![
                    Stmt::While(
                        Expr::new_or(
                            Expr::new_not_equal(
                                Expr::new_mod(Expr::new_ident("a"), Expr::new_num_literal(10)),
                                Expr::new_num_literal(2),
                            ),
                            Expr::new_less(Expr::new_ident("a"), Expr::new_num_literal(10)),
                        ),
                        vec![Stmt::Reassign(
                            String::from("a"),
                            Expr::new_add(Expr::new_ident("a"), Expr::new_num_literal(1)),
                        )],
                    ),
                    Stmt::Reassign(
                        String::from("a"),
                        Expr::new_add(Expr::new_ident("a"), Expr::new_num_literal(1)),
                    ),
                    Stmt::Reassign(
                        String::from("i"),
                        Expr::new_sub(Expr::new_ident("i"), Expr::new_num_literal(1)),
                    ),
                ],
            ),
        ]),
    ];
    let expected_scope = vec![
        vec![
            ("a", Literal::Number(25)),
            ("i", Literal::Number(0)),
            ("j", Literal::Number(5)),
        ],
        vec![("a", Literal::Number(53)), ("i", Literal::Number(0))],
    ];
    compare_scopes(blocks, expected_scope);
}

#[test]
fn block_discards_its_bindings() {
    let mut executor = Executor::new(false, Scope::new());
    let events = execute(&mut executor, "let a = 3; { let a = 5; let b = a; }");
    assert_eq!(Vec::<Event>::new(), events);
    assert_scope(executor.global(), &[("a", Literal::Number(3))]);
    assert_eq!(None, executor.get_var(&"b".to_string()));
    assert_eq!(Some(Literal::Number(3)), executor.get_var(&"a".to_string()));
}

#[test]
fn inner_scope_shadows_and_reads_outer_names() {
    let mut executor = Executor::new(false, Scope::new());
    let events = execute(
        &mut executor,
        "let a = 1; let b = 2; { let a = 10; print a + b; b = a; { print a; } } print a; print b;",
    );
    assert_eq!(printed(&["12", "10", "1", "10"]), events);
}

#[test]
fn reassigning_an_unknown_name_is_reported_and_binds_nothing() {
    let mut executor = Executor::new(false, Scope::new());
    let events = execute(&mut executor, "x = 5;");
    assert_eq!(vec![Event::Undefined("x".to_string())], events);
    assert_scope(executor.global(), &[]);
    assert_eq!(None, executor.get_var(&"x".to_string()));

    let events = execute(&mut executor, "let y = 1; { x = 5; { x = 6; } } print y;");
    assert_eq!(
        vec![
            Event::Undefined("x".to_string()),
            Event::Undefined("x".to_string()),
            Event::Printed("1".to_string()),
        ],
        events
    );
    assert_scope(executor.global(), &[("y", Literal::Number(1))]);
}

#[test]
fn failed_statement_is_dropped_and_the_program_goes_on() {
    let mut executor = Executor::new(false, Scope::new());
    let events = execute(
        &mut executor,
        "let a = true * 2; print missing; let b = 1; print 1 - 'x' + 2; print 5 / 0; print b;",
    );
    assert_eq!(
        vec![
            Event::Failed(LiteralOpError::InvalidTypeError),
            Event::Failed(LiteralOpError::UndefinedVariableError),
            Event::Failed(LiteralOpError::InvalidTypeError),
            Event::Failed(LiteralOpError::DivByZeroError),
            Event::Printed("1".to_string()),
        ],
        events
    );
    assert_scope(executor.global(), &[("b", Literal::Number(1))]);
}

#[test]
fn left_operand_fails_before_the_right_one() {
    let mut executor = Executor::new(false, Scope::new());
    let events = execute(&mut executor, "print missing + (1 - 'x');");
    assert_eq!(vec![Event::Failed(LiteralOpError::UndefinedVariableError)], events);
    let events = execute(&mut executor, "print (1 - 'x') + missing;");
    assert_eq!(vec![Event::Failed(LiteralOpError::InvalidTypeError)], events);
}

#[test]
fn failing_condition_ends_the_loop_only() {
    let mut executor = Executor::new(false, Scope::new());
    let events = execute(
        &mut executor,
        "let i = 0; while (i < 3) { while (i - 'x') { print 0; } i = i + 1; } print i;",
    );
    assert_eq!(
        vec![
            Event::Failed(LiteralOpError::InvalidTypeError),
            Event::Failed(LiteralOpError::InvalidTypeError),
            Event::Failed(LiteralOpError::InvalidTypeError),
            Event::Printed("3".to_string()),
        ],
        events
    );
}

#[test]
fn loop_body_gets_a_fresh_scope_each_time() {
    let mut executor = Executor::new(false, Scope::new());
    let events = execute(
        &mut executor,
        "let i = 0; while (i < 2) { let seen = i; i = i + 1; print seen; } seen = 1;",
    );
    assert_eq!(
        vec![
            Event::Printed("0".to_string()),
            Event::Printed("1".to_string()),
            Event::Undefined("seen".to_string()),
        ],
        events
    );
    assert_scope(executor.global(), &[("i", Literal::Number(2))]);
}

#[test]
fn print_writes_the_text_of_each_kind() {
    let mut executor = Executor::new(false, Scope::new());
    let events = execute(
        &mut executor,
        "print 42; print 0 - 7; print 'raw text'; print true; print false; print 2.5; print 4 / 2;",
    );
    assert_eq!(printed(&["42", "-7", "raw text", "true", "false", "2.5", "2"]), events);
}

#[test]
fn expression_statements_are_echoed_on_request_only() {
    let mut quiet = Executor::new(false, Scope::new());
    assert_eq!(Vec::<Event>::new(), execute(&mut quiet, "1 + 2; 'a'; 1.5"));
    let mut echoing = Executor::new(true, Scope::new());
    assert_eq!(printed(&["3", "a", "1.5"]), execute(&mut echoing, "1 + 2; 'a'; 1.5"));
}

#[test]
fn global_scope_lasts_from_one_program_to_the_next() {
    let mut executor = Executor::new(true, Scope::new());
    assert_eq!(Vec::<Event>::new(), execute(&mut executor, "let total = 40"));
    assert_eq!(Vec::<Event>::new(), execute(&mut executor, "total = total + 2"));
    assert_eq!(printed(&["42"]), execute(&mut executor, "total"));
}

#[test]
fn given_global_scope_is_used() {
    let mut global = Scope::new();
    global.insert_var("seed".to_string(), Literal::Number(7));
    let mut executor = Executor::new(false, global);
    assert_eq!(printed(&["14"]), execute(&mut executor, "print seed * 2;"));
}

#[test]
fn arithmetic_on_mixed_numbers_is_done_in_floats() {
    let mut executor = Executor::new(false, Scope::new());
    let events = execute(
        &mut executor,
        "let a = 1 + 2.5; let b = 2.5 - 1; let c = 3 * 0.5; let d = 7 / 2; let e = 7.5 % 2; \
         let f = 1.5 + 1.5; let g = 10 % 4;",
    );
    assert_eq!(Vec::<Event>::new(), events);
    assert_scope(
        executor.global(),
        &[
            ("a", float(3.5)),
            ("b", float(1.5)),
            ("c", float(1.5)),
            ("d", float(3.5)),
            ("e", float(1.5)),
            ("f", float(3.0)),
            ("g", Literal::Number(2)),
        ],
    );
}

#[test]
fn comparisons_of_mixed_numbers() {
    let mut executor = Executor::new(false, Scope::new());
    let events = execute(
        &mut executor,
        "print 1 < 1.5; print 2.5 > 3; print 2 >= 1.5; print 1.5 <= 1; print 5 >= 5.0; \
         print 5.0 >= 5.0; print 0.5 < 0.25; print 5 == 5.0; print 5 != 5.0;",
    );
    assert_eq!(
        printed(&["true", "false", "true", "false", "false", "true", "false", "false", "true"]),
        events
    );
}

#[test]
fn strings_concatenate_with_the_text_of_any_value() {
    let mut executor = Executor::new(false, Scope::new());
    let events = execute(
        &mut executor,
        "print 'n=' + 5; print 5 + '=n'; print 'f=' + 2.5; print 0.5 + '=f'; print 'b=' + true; \
         print false + '=b'; print 'a' + 'b';",
    );
    assert_eq!(
        printed(&["n=5", "5=n", "f=2.5", "0.5=f", "b=true", "false=b", "ab"]),
        events
    );
}

#[test]
fn unary_operators_on_values() {
    let mut executor = Executor::new(false, Scope::new());
    let events = execute(
        &mut executor,
        "let x = 5; print !x; print !0; print !''; print 0 * -x; print 1 + -2.5; print 1 * -'s';",
    );
    assert_eq!(
        vec![
            Event::Printed("false".to_string()),
            Event::Printed("true".to_string()),
            Event::Printed("true".to_string()),
            Event::Printed("0".to_string()),
            Event::Printed("-1.5".to_string()),
            Event::Failed(LiteralOpError::InvalidTypeError),
        ],
        events
    );
}

#[test]
fn division_by_zero_of_either_kind_is_reported() {
    let mut executor = Executor::new(false, Scope::new());
    let events = execute(
        &mut executor,
        "print 5 / 0; print 5.0 / 0; print 5 / 0.0; print 5.5 / 0.0; print 5 % 0; print 1 / 2;",
    );
    assert_eq!(
        vec![
            Event::Failed(LiteralOpError::DivByZeroError),
            Event::Failed(LiteralOpError::DivByZeroError),
            Event::Failed(LiteralOpError::DivByZeroError),
            Event::Failed(LiteralOpError::DivByZeroError),
            Event::Failed(LiteralOpError::DivByZeroError),
            Event::Printed("0.5".to_string()),
        ],
        events
    );
}

#[test]
fn machine_asks_again_until_it_is_answered() {
    let mut executor = Executor::new(false, Scope::new());
    executor.execute_code(Block::new(vec![Stmt::Print(Expr::new_decimal("1.5"))]));
    assert_eq!(Action::Continue, executor.step());
    let request = Request::Parse("1.5".to_string());
    assert_eq!(Action::Ask(request.clone()), executor.step());
    assert_eq!(Action::Ask(request.clone()), executor.step());
    assert!(!executor.answer(Reply::Text("1.5".to_string())));
    assert_eq!(Action::Ask(request), executor.step());
    assert!(executor.answer(Reply::Bits(1.5f32.to_bits())));
    assert!(!executor.answer(Reply::Bits(0)));
    assert_eq!(Action::Ask(Request::Show(1.5f32.to_bits())), executor.step());
    assert!(!executor.answer(Reply::Bits(0)));
    assert!(executor.answer(Reply::Text("one and a half".to_string())));
    assert_eq!(Action::Print("one and a half".to_string()), executor.step());
    assert_eq!(Action::Done, executor.step());
    assert_eq!(Action::Done, executor.step());
}

#[test]
fn loading_a_program_abandons_the_work_and_keeps_the_scope_chain() {
    let mut executor = Executor::new(false, Scope::new());
    executor.execute_code(Block::new(vec![Stmt::Block(vec![
        Stmt::Assign("inner".to_string(), Expr::new_num_literal(1)),
        Stmt::While(Expr::new_bool_literal(true), vec![]),
    ])]));
    for _ in 0..50 {
        assert_eq!(Action::Continue, executor.step());
    }
    assert_eq!(2, executor.depth());
    assert_eq!(Some(Literal::Number(1)), executor.get_var(&"inner".to_string()));
    assert_eq!(printed(&["2", "1"]), execute(&mut executor, "print 2; print inner;"));
    assert_eq!(2, executor.depth());
    assert_eq!(Some(Literal::Number(1)), executor.get_var(&"inner".to_string()));
    assert_scope(executor.global(), &[]);
}

#[test]
fn program_runs_in_the_scope_chain_as_it_stands() {
    let outer = Scope::from_pairs(vec![
        ("a".to_string(), Literal::Number(1)),
        ("b".to_string(), Literal::Number(7)),
    ]);
    let inner = Scope::from_pairs(vec![("a".to_string(), Literal::Number(2))]);
    let mut executor = Executor::with_scopes(false, vec![outer, inner]);
    assert_eq!(2, executor.depth());
    let events = execute(
        &mut executor,
        "print a; print b; let c = a + b; { let d = c; print d; missing = 1 - 'x'; } b = 8; \
         while (c > 0) { let e = c; c = c - 5; } x = 5; print d;",
    );
    assert_eq!(
        vec![
            Event::Printed("2".to_string()),
            Event::Printed("7".to_string()),
            Event::Printed("9".to_string()),
            Event::Failed(LiteralOpError::InvalidTypeError),
            Event::Undefined("x".to_string()),
            Event::Failed(LiteralOpError::UndefinedVariableError),
        ],
        events
    );
    assert_eq!(2, executor.depth());
    assert_scope(executor.global(), &[("a", Literal::Number(1)), ("b", Literal::Number(8))]);
    assert_eq!(Some(Literal::Number(2)), executor.get_var(&"a".to_string()));
    assert_eq!(Some(Literal::Number(-1)), executor.get_var(&"c".to_string()));
    assert_eq!(None, executor.get_var(&"d".to_string()));
    assert_eq!(None, executor.get_var(&"e".to_string()));
    assert_eq!(None, executor.get_var(&"x".to_string()));
}

#[test]
fn reassigning_an_unknown_name_at_any_depth_of_blocks() {
    let sources =
        ["x = 5;", "{ x = 5; }", "{ { { x = 5; } } }", "let y = 1; { y = 2; { x = 5; } }"];
    for source in sources {
        let outer = Scope::from_pairs(vec![("a".to_string(), Literal::Number(1))]);
        let mut executor = Executor::with_scopes(false, vec![outer, Scope::new(), Scope::new()]);
        assert_eq!(vec![Event::Undefined("x".to_string())], execute(&mut executor, source));
        assert_eq!(3, executor.depth());
        assert_eq!(None, executor.get_var(&"x".to_string()));
    }
}

#[test]
fn decimal_that_is_no_number_fails_before_the_host_is_asked() {
    let mut executor = Executor::new(false, Scope::new());
    executor.execute_code(Block::new(vec![
        Stmt::Print(Expr::Decimal("1.2.3".to_string())),
        Stmt::Print(Expr::Decimal("abc".to_string())),
        Stmt::Print(Expr::Decimal(".".to_string())),
        Stmt::Print(Expr::Decimal("12".to_string())),
        Stmt::Print(Expr::Decimal(".5".to_string())),
    ]));
    assert_eq!(
        vec![
            Event::Failed(LiteralOpError::InvalidTypeError),
            Event::Failed(LiteralOpError::InvalidTypeError),
            Event::Failed(LiteralOpError::InvalidTypeError),
            Event::Failed(LiteralOpError::InvalidTypeError),
            Event::Printed("0.5".to_string()),
        ],
        run(&mut executor)
    );
}

#[test]
fn wrapping_arithmetic_on_numbers() {
    let mut executor = Executor::new(false, Scope::new());
    let events = execute(
        &mut executor,
        "let max = 2147483647; print max + 1; print (0 - max - 1) - 1; print max * 2; \
         print (0 - max - 1) % (0 - 1); print 0 - 7 % 3; print (0 - 7) % 3;",
    );
    assert_eq!(printed(&["-2147483648", "2147483647", "-2", "0", "-1", "-1"]), events);
}

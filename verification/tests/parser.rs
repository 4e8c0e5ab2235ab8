use estel::errors::{ExprError, StmtError, StmtErrors};
use estel::expr::{ExpectType, Expr};
use estel::lexer::Lexer;
use estel::parser::Parser;
use estel::stmt::{Block, Stmt};
use estel::token::{Keyword, Operator, Token, TokenType};

fn parse(source: &str) -> Result<Block, StmtErrors> {
    let tokens = Lexer::new(source).lex();
    Parser::new(&tokens).parse()
}

fn compare_expr_parse_results(src: &[&str], expected: &[Expr]) {
    assert_eq!(src.len(), expected.len());
    for (line, expect) in src.iter().zip(expected) {
        match &parse(line).unwrap().stmts[0] {
            Stmt::Expr(expr) => assert_eq!(expr, expect),
            _ => panic!("Stmt is not an expr statement"),
        }
    }
}

fn compare_parse_results(src: &[&str], expected: &[Block]) {
    assert_eq!(src.len(), expected.len());
    for (line, expect) in src.iter().zip(expected) {
        assert_eq!(&parse(line).unwrap(), expect);
    }
}

fn compare_stmt_errors(src: &[&str], expected: &[StmtErrors]) {
    assert_eq!(src.len(), expected.len());
    for (code, err) in src.iter().zip(expected) {
        if let Err(errors) = parse(code) {
            assert_eq!(&errors, err);
        } else {
            panic!("Expected errors but got none");
        }
    }
}

fn negate(expr: Expr) -> Expr {
    Expr::Negate(Box::new(expr))
}

#[test]
fn parse_binary_ops() {
    let src = ["4+5", "7-2", "8*2", "5/5"];
    let expected = [
        Expr::new_add(Expr::new_num_literal(4), Expr::new_num_literal(5)),
        Expr::new_sub(Expr::new_num_literal(7), Expr::new_num_literal(2)),
        Expr::new_mul(Expr::new_num_literal(8), Expr::new_num_literal(2)),
        Expr::new_div(Expr::new_num_literal(5), Expr::new_num_literal(5)),
    ];
    compare_expr_parse_results(&src, &expected);
}

#[test]
fn parse_complex_numeric_ops() {
    let src = [
        "5 * 5 + 3",
        "5 - 6 + 3",
        "5 + 3 - 6",
        "(4) * (5)",
        "5 * (5 + 3)",
        "5 * (5 + 3) * 2",
        "(4-2) * 7 / (4+3)",
        "(5-5) * (2+8)",
    ];
    let expected = [
        Expr::new_add(
            Expr::new_mul(Expr::new_num_literal(5), Expr::new_num_literal(5)),
            Expr::new_num_literal(3),
        ),
        Expr::new_add(
            Expr::new_sub(Expr::new_num_literal(5), Expr::new_num_literal(6)),
            Expr::new_num_literal(3),
        ),
        Expr::new_sub(
            Expr::new_add(Expr::new_num_literal(5), Expr::new_num_literal(3)),
            Expr::new_num_literal(6),
        ),
        Expr::new_mul(Expr::new_num_literal(4), Expr::new_num_literal(5)),
        Expr::new_mul(
            Expr::new_num_literal(5),
            Expr::new_add(Expr::new_num_literal(5), Expr::new_num_literal(3)),
        ),
        Expr::new_mul(
            Expr::new_mul(
                Expr::new_num_literal(5),
                Expr::new_add(Expr::new_num_literal(5), Expr::new_num_literal(3)),
            ),
            Expr::new_num_literal(2),
        ),
        Expr::new_div(
            Expr::new_mul(
                Expr::new_sub(Expr::new_num_literal(4), Expr::new_num_literal(2)),
                Expr::new_num_literal(7),
            ),
            Expr::new_add(Expr::new_num_literal(4), Expr::new_num_literal(3)),
        ),
        Expr::new_mul(
            Expr::new_sub(Expr::new_num_literal(5), Expr::new_num_literal(5)),
            Expr::new_add(Expr::new_num_literal(2), Expr::new_num_literal(8)),
        ),
    ];
    compare_expr_parse_results(&src, &expected);
}

#[test]
fn parse_identifier_ops() {
    let src = [
        "a + 5",
        "a + b",
        "a + b + c",
        "a + b * c",
        "a * (b + c)",
        "(a + b) * c",
        "(a) * (b)",
    ];
    let expected = [
        Expr::new_add(Expr::new_ident("a"), Expr::new_num_literal(5)),
        Expr::new_add(Expr::new_ident("a"), Expr::new_ident("b")),
        Expr::new_add(
            Expr::new_add(Expr::new_ident("a"), Expr::new_ident("b")),
            Expr::new_ident("c"),
        ),
        Expr::new_add(
            Expr::new_ident("a"),
            Expr::new_mul(Expr::new_ident("b"), Expr::new_ident("c")),
        ),
        Expr::new_mul(
            Expr::new_ident("a"),
            Expr::new_add(Expr::new_ident("b"), Expr::new_ident("c")),
        ),
        Expr::new_mul(
            Expr::new_add(Expr::new_ident("a"), Expr::new_ident("b")),
            Expr::new_ident("c"),
        ),
        Expr::new_mul(Expr::new_ident("a"), Expr::new_ident("b")),
    ];
    compare_expr_parse_results(&src, &expected);
}

#[test]
fn parse_unary_ops() {
    let src = ["-5", "-a", "-(5+5)", "-(a+b)", "!a", "!(a or b)", "!a and b"];
    let expected = [
        Expr::Negate(Box::new(Expr::new_num_literal(5))),
        Expr::Negate(Box::new(Expr::new_ident("a"))),
        Expr::Negate(Box::new(Expr::new_add(
            Expr::new_num_literal(5),
            Expr::new_num_literal(5),
        ))),
        Expr::Negate(Box::new(Expr::new_add(Expr::new_ident("a"), Expr::new_ident("b")))),
        Expr::Not(Box::new(Expr::new_ident("a"))),
        Expr::Not(Box::new(Expr::Or(
            Box::new(Expr::new_ident("a")),
            Box::new(Expr::new_ident("b")),
        ))),
        Expr::And(
            Box::new(Expr::Not(Box::new(Expr::new_ident("a")))),
            Box::new(Expr::new_ident("b")),
        ),
    ];
    compare_expr_parse_results(&src, &expected);
}

#[test]
fn parse_complex_unary_ops() {
    let src = ["5 - -5", "6 + -5 * 3", "5 * -5 + 3", "-5 * -5", "6 - -5 + 25 * 16"];
    let expected = [
        Expr::new_sub(
            Expr::new_num_literal(5),
            Expr::Negate(Box::new(Expr::new_num_literal(5))),
        ),
        Expr::new_add(
            Expr::new_num_literal(6),
            Expr::new_mul(
                Expr::Negate(Box::new(Expr::new_num_literal(5))),
                Expr::new_num_literal(3),
            ),
        ),
        Expr::new_add(
            Expr::new_mul(
                Expr::new_num_literal(5),
                Expr::Negate(Box::new(Expr::new_num_literal(5))),
            ),
            Expr::new_num_literal(3),
        ),
        Expr::new_mul(
            Expr::Negate(Box::new(Expr::new_num_literal(5))),
            Expr::Negate(Box::new(Expr::new_num_literal(5))),
        ),
        Expr::new_add(
            Expr::new_sub(
                Expr::new_num_literal(6),
                Expr::Negate(Box::new(Expr::new_num_literal(5))),
            ),
            Expr::new_mul(Expr::new_num_literal(25), Expr::new_num_literal(16)),
        ),
    ];

    compare_expr_parse_results(&src, &expected);
}

#[test]
fn parse_block() {
    let src = vec![
        "
                {
                    print a;
                }
            ",
        "
                let a = 5;
                {
                    let b = 4;
                    a = 3;
                }

            ",
        "
                {
                    {
                        print 5;
                        {
                            {
                            }
                        }
                    }
                    print \"Hi\";
                }
            ",
    ];
    let expected = vec![
        Block::new(vec![Stmt::Block(vec![Stmt::Print(Expr::Ident(String::from("a")))])]),
        Block::new(vec![
            Stmt::Assign(String::from('a'), Expr::new_num_literal(5)),
            Stmt::Block(vec![
                Stmt::Assign(String::from('b'), Expr::new_num_literal(4)),
                Stmt::Reassign(String::from('a'), Expr::new_num_literal(3)),
            ]),
        ]),
        Block::new(vec![Stmt::Block(vec![
            Stmt::Block(vec![
                Stmt::Print(Expr::new_num_literal(5)),
                Stmt::Block(vec![Stmt::Block(Vec::new())]),
            ]),
            Stmt::Print(Expr::new_string_literal("Hi")),
        ])]),
    ];
    compare_parse_results(&src, &expected);
}

#[test]
fn parse_while() {
    let src = vec![
        "
                while (a < 5){
                    print a;
                    a = a + 1;
                }
            ",
        "
                while (a < 5){
                    while (b < 5){
                        print b;
                        b = b + 1;
                    }
                    print a;
                    a = a + 1;
                }
            ",
        "
                {while (true){
                    let a = 5;
                    {
                        let b = 7;
                        a = a + b;
                    }
                    print a;
                    a = a + 1;
                }}
            ",
    ];
    let expected = vec![
        Block::new(vec![Stmt::While(
            Expr::new_less(Expr::new_ident("a"), Expr::new_num_literal(5)),
            vec![
                Stmt::Print(Expr::Ident(String::from("a"))),
                Stmt::Reassign(
                    String::from("a"),
                    Expr::new_add(Expr::Ident(String::from("a")), Expr::new_num_literal(1)),
                ),
            ],
        )]),
        Block::new(vec![Stmt::While(
            Expr::new_less(Expr::new_ident("a"), Expr::new_num_literal(5)),
            vec![
                Stmt::While(
                    Expr::new_less(Expr::new_ident("b"), Expr::new_num_literal(5)),
                    vec![
                        Stmt::Print(Expr::Ident(String::from("b"))),
                        Stmt::Reassign(
                            String::from("b"),
                            Expr::new_add(
                                Expr::Ident(String::from("b")),
                                Expr::new_num_literal(1),
                            ),
                        ),
                    ],
                ),
                Stmt::Print(Expr::Ident(String::from("a"))),
                Stmt::Reassign(
                    String::from("a"),
                    Expr::new_add(Expr::Ident(String::from("a")), Expr::new_num_literal(1)),
                ),
            ],
        )]),
        Block::new(vec![Stmt::Block(vec![Stmt::While(
            Expr::new_bool_literal(true),
            vec![
                Stmt::Assign(String::from("a"), Expr::new_num_literal(5)),
                Stmt::Block(vec![
                    Stmt::Assign(String::from("b"), Expr::new_num_literal(7)),
                    Stmt::Reassign(
                        String::from("a"),
                        Expr::new_add(
                            Expr::Ident(String::from("a")),
                            Expr::Ident(String::from("b")),
                        ),
                    ),
                ]),
                Stmt::Print(Expr::Ident(String::from("a"))),
                Stmt::Reassign(
                    String::from("a"),
                    Expr::new_add(Expr::Ident(String::from("a")), Expr::new_num_literal(1)),
                ),
            ],
        )])]),
    ];
    compare_parse_results(&src, &expected);
}

#[test]
fn test_expr_errors() {
    let src = vec!["5 + ;", "5 + 5 + \n", "5 + 5 + *", "5 + ="];
    let error = vec![
        ExprError::ExpectTokenError(
            ExpectType::Operand,
            Token { class: TokenType::StmtEnd, line: 1, start: 4 },
        ),
        ExprError::ExpectTokenError(
            ExpectType::Operand,
            Token { class: TokenType::StmtEnd, line: 1, start: 8 },
        ),
        ExprError::ExpectTokenError(
            ExpectType::Operand,
            Token { class: TokenType::Operator(Operator::Mul), line: 1, start: 8 },
        ),
        ExprError::ExpectTokenError(
            ExpectType::Operand,
            Token { class: TokenType::Assign, line: 1, start: 4 },
        ),
    ];

    for (line, expect) in src.iter().zip(error) {
        if let Err(errors) = parse(line) {
            if let StmtError::InvalidExpression(err) = &errors.errors[0] {
                assert_eq!(err, &expect);
            } else {
                panic!("Expected an invalid expression error but got {:?}", errors.errors[0]);
            }
        } else {
            panic!("Expected an error but got none");
        }
    }
}

#[test]
fn test_stmt_errors() {
    let src = vec!["let", "let a", "let = 5"];
    let expected = vec![
        StmtError::IncompleteStatement(Token {
            class: TokenType::Keyword(Keyword::Let),
            line: 1,
            start: 0,
        }),
        StmtError::IncompleteStatement(Token {
            class: TokenType::Keyword(Keyword::Let),
            line: 1,
            start: 0,
        }),
        StmtError::ExpectToken(
            TokenType::Ident(String::new()),
            Token { class: TokenType::Assign, line: 1, start: 4 },
        ),
    ];
    for (line, err) in src.iter().zip(expected) {
        if let Err(errors) = parse(line) {
            assert!(errors.errors.len() == 1);
            assert_eq!(errors.errors[0], err);
        } else {
            panic!("Expected an error but got none");
        }
    }
}

#[test]
fn test_block_errors() {
    let src = [
        "
                let a = 5; }
            ",
        "
                let a = 5;
                {}{}}
                print \"Hello\"; {
                print \"Hi\";
            ",
        "
                {
            ",
    ];
    let expected = [
        StmtErrors {
            errors: vec![StmtError::UnexpectedBlockClose(Token {
                class: TokenType::Rbrace,
                line: 2,
                start: 27,
            })],
        },
        StmtErrors {
            errors: vec![
                StmtError::UnexpectedBlockClose(Token {
                    class: TokenType::Rbrace,
                    line: 3,
                    start: 20,
                }),
                StmtError::UnterminatedBlock(Token {
                    class: TokenType::Lbrace,
                    line: 4,
                    start: 31,
                }),
            ],
        },
        StmtErrors {
            errors: vec![StmtError::UnterminatedBlock(Token {
                class: TokenType::Lbrace,
                line: 2,
                start: 16,
            })],
        },
    ];
    compare_stmt_errors(&src, &expected);
}

#[test]
fn test_while_errors() {
    let src = ["while(){print a;}", "while(a){print b;", "while(a +) print c;"];
    let expected = [
        StmtErrors {
            errors: vec![StmtError::ExpectedExpression(Token {
                class: TokenType::Lparen,
                line: 1,
                start: 5,
            })],
        },
        StmtErrors {
            errors: vec![StmtError::UnterminatedBlock(Token {
                class: TokenType::Lbrace,
                line: 1,
                start: 8,
            })],
        },
        StmtErrors {
            errors: vec![StmtError::InvalidExpression(ExprError::ExpectTokenError(
                ExpectType::Operand,
                Token { class: TokenType::Rparen, line: 1, start: 9 },
            ))],
        },
    ];
    compare_stmt_errors(&src, &expected);
}

#[test]
fn multiplication_binds_tighter_on_either_side() {
    compare_expr_parse_results(
        &["5 * 5 + 3", "5 + 5 * 3"],
        &[
            Expr::new_add(
                Expr::new_mul(Expr::new_num_literal(5), Expr::new_num_literal(5)),
                Expr::new_num_literal(3),
            ),
            Expr::new_add(
                Expr::new_num_literal(5),
                Expr::new_mul(Expr::new_num_literal(5), Expr::new_num_literal(3)),
            ),
        ],
    );
}

#[test]
fn operators_of_one_precedence_group_to_the_left() {
    compare_expr_parse_results(
        &["8 - 3 - 2", "a + b * c - d", "1 < 2 == 3 > 4 or 5 and 6", "8 / 4 % 3 * 2"],
        &[
            Expr::new_sub(
                Expr::new_sub(Expr::new_num_literal(8), Expr::new_num_literal(3)),
                Expr::new_num_literal(2),
            ),
            Expr::new_sub(
                Expr::new_add(
                    Expr::new_ident("a"),
                    Expr::new_mul(Expr::new_ident("b"), Expr::new_ident("c")),
                ),
                Expr::new_ident("d"),
            ),
            Expr::new_or(
                Expr::new_equal(
                    Expr::new_less(Expr::new_num_literal(1), Expr::new_num_literal(2)),
                    Expr::new_greater(Expr::new_num_literal(3), Expr::new_num_literal(4)),
                ),
                Expr::new_and(Expr::new_num_literal(5), Expr::new_num_literal(6)),
            ),
            Expr::new_mul(
                Expr::new_mod(
                    Expr::new_div(Expr::new_num_literal(8), Expr::new_num_literal(4)),
                    Expr::new_num_literal(3),
                ),
                Expr::new_num_literal(2),
            ),
        ],
    );
}

#[test]
fn unary_operators_bind_tighter_than_binary_ones() {
    compare_expr_parse_results(
        &["6 + -5 * 3", "!a == b", "-(1 + 2) * 3", "!(!(a)) or b"],
        &[
            Expr::new_add(
                Expr::new_num_literal(6),
                Expr::new_mul(negate(Expr::new_num_literal(5)), Expr::new_num_literal(3)),
            ),
            Expr::new_equal(Expr::Not(Box::new(Expr::new_ident("a"))), Expr::new_ident("b")),
            Expr::new_mul(
                negate(Expr::new_add(Expr::new_num_literal(1), Expr::new_num_literal(2))),
                Expr::new_num_literal(3),
            ),
            Expr::new_or(
                Expr::Not(Box::new(Expr::Not(Box::new(Expr::new_ident("a"))))),
                Expr::new_ident("b"),
            ),
        ],
    );
}

#[test]
fn unary_operators_in_a_row() {
    compare_expr_parse_results(
        &["!!a", "!!!a and b"],
        &[
            Expr::Not(Box::new(Expr::Not(Box::new(Expr::new_ident("a"))))),
            Expr::new_and(
                Expr::Not(Box::new(Expr::Not(Box::new(Expr::Not(Box::new(
                    Expr::new_ident("a"),
                )))))),
                Expr::new_ident("b"),
            ),
        ],
    );
}

#[test]
fn decimal_literals_are_kept_as_written() {
    compare_expr_parse_results(
        &["2.50 + 1"],
        &[Expr::new_add(Expr::new_decimal("2.50"), Expr::new_num_literal(1))],
    );
}

#[test]
fn two_malformed_statements_give_two_errors() {
    let errors = parse("let = 5; print +;").unwrap_err();
    assert_eq!(
        vec![
            StmtError::ExpectToken(
                TokenType::Ident(String::new()),
                Token { class: TokenType::Assign, line: 1, start: 4 },
            ),
            StmtError::InvalidExpression(ExprError::ExpectTokenError(
                ExpectType::Operand,
                Token { class: TokenType::Operator(Operator::Add), line: 1, start: 15 },
            )),
        ],
        errors.errors
    );
    let errors = parse("1 +\nlet x = 2\n) 3\n").unwrap_err();
    assert_eq!(2, errors.errors.len());
}

#[test]
fn unterminated_block_is_reported_at_its_opening_brace() {
    let errors = parse("{ print 1;").unwrap_err();
    assert_eq!(
        vec![StmtError::UnterminatedBlock(Token { class: TokenType::Lbrace, line: 1, start: 0 })],
        errors.errors
    );
    assert_eq!((1, 0), errors.errors[0].get_position());
    assert_eq!("Unterminated block", errors.errors[0].get_message());
}

#[test]
fn two_unterminated_blocks_are_both_reported() {
    let errors = parse("{ {").unwrap_err();
    assert_eq!(
        vec![
            StmtError::UnterminatedBlock(Token { class: TokenType::Lbrace, line: 1, start: 2 }),
            StmtError::UnterminatedBlock(Token { class: TokenType::Lbrace, line: 1, start: 0 }),
        ],
        errors.errors
    );
}

#[test]
fn unterminated_parenthesis_is_reported_at_the_opening_parenthesis() {
    let errors = parse("(1 + 2").unwrap_err();
    let open = Token { class: TokenType::Lparen, line: 1, start: 0 };
    assert_eq!(
        vec![StmtError::InvalidExpression(ExprError::UnterminatedParenthesis(open))],
        errors.errors
    );
    assert_eq!((1, 0), errors.errors[0].get_position());
    assert_eq!("Unterminated parenthesis", errors.errors[0].get_message());

    let errors = parse("print 2 * (3 + (4)").unwrap_err();
    assert_eq!((1, 10), errors.errors[0].get_position());
}

#[test]
fn unterminated_loop_condition_is_reported_at_its_parenthesis() {
    let errors = parse("while (a < 5 { print a; }").unwrap_err();
    assert_eq!(
        StmtError::UnterminatedParenthesis(Token {
            class: TokenType::Lparen,
            line: 1,
            start: 6
        }),
        errors.errors[0]
    );
}

#[test]
fn loop_without_parenthesis_is_rejected() {
    let errors = parse("while a { }").unwrap_err();
    assert_eq!(
        StmtError::ExpectToken(
            TokenType::Lparen,
            Token { class: TokenType::Ident("a".to_string()), line: 1, start: 6 },
        ),
        errors.errors[0]
    );
    assert_eq!("Expected (, got an identifier instead", errors.errors[0].get_message());
}

#[test]
fn loop_body_may_be_one_statement_or_empty() {
    assert_eq!(
        Block::new(vec![Stmt::While(
            Expr::new_ident("a"),
            vec![Stmt::Print(Expr::new_num_literal(1))],
        )]),
        parse("while (a) print 1;").unwrap()
    );
    assert_eq!(
        Block::new(vec![Stmt::While(Expr::new_ident("a"), vec![])]),
        parse("while (a);").unwrap()
    );
}

#[test]
fn statement_shapes() {
    assert_eq!(
        Block::new(vec![
            Stmt::Assign("x".to_string(), Expr::new_num_literal(1)),
            Stmt::Reassign("x".to_string(), Expr::new_num_literal(2)),
            Stmt::Print(Expr::new_ident("x")),
            Stmt::Expr(Expr::new_ident("x")),
            Stmt::Expr(Expr::new_add(Expr::new_ident("x"), Expr::new_num_literal(1))),
            Stmt::Expr(Expr::new_string_literal("s")),
        ]),
        parse("let x = 1; x = 2; print x; x; x + 1; 's'").unwrap()
    );
}

#[test]
fn statement_errors_by_kind() {
    let first = |source: &str| parse(source).unwrap_err().errors.remove(0);
    assert!(matches!(first("= 5"), StmtError::InvalidStartToken(_)));
    assert!(matches!(first("let x 5 6"), StmtError::ExpectToken(TokenType::Assign, _)));
    assert!(matches!(first("let x ="), StmtError::ExpectedExpression(_)));
    assert!(matches!(first("print"), StmtError::ExpectedExpression(_)));
    assert!(matches!(first("print 1 2"), StmtError::InvalidExpression(_)));
    assert!(matches!(first("}"), StmtError::UnexpectedBlockClose(_)));
    assert_eq!("Invalid start of statement", first("= 5").get_message());
    assert_eq!("Expected =, got a literal instead", first("let x 5 6").get_message());
    assert_eq!("Expected an expression", first("print").get_message());
    assert_eq!("Expected an operator", first("print 1 2").get_message());
    assert_eq!("Expected an operand", first("print 1 +").get_message());
    assert_eq!("Unexpected block termination", first("}").get_message());
    assert_eq!("Incomplete statement", first("let").get_message());
    assert_eq!((1, 8), first("print 1 2").get_position());
}

#[test]
fn empty_program_parses_to_no_statement() {
    assert_eq!(Block::new(vec![]), parse("").unwrap());
    assert_eq!(Block::new(vec![]), parse("\n\n;\n").unwrap());
}

use mai::ast::{Expr, Stmt};
use mai::lexer::TokenLexer;
use mai::parser::{ParseError, Parser};
use mai::token::Token;

fn parse_src(src: &str) -> Result<Vec<Box<Stmt>>, ParseError> {
    let tokens = TokenLexer::new(src).tokens().expect("input lexes");
    Parser::new(tokens).parse()
}

fn ident(s: &str) -> Token {
    Token::Ident(s.to_string())
}

fn var(s: &str) -> Box<Expr> {
    Box::new(Expr::Variable { name: ident(s) })
}

fn num(s: &str) -> Box<Expr> {
    Box::new(Expr::Literal {
        value: s.to_string(),
    })
}

#[test]
fn multiplication_is_the_inner_node_of_the_additions_right_child() {
    let stmts = parse_src("a + b * c;").unwrap();
    assert_eq!(
        stmts,
        vec![Box::new(Stmt::Expr(Box::new(Expr::BinaryExpr {
            op: Token::Plus,
            left: var("a"),
            right: Box::new(Expr::BinaryExpr {
                op: Token::Times,
                left: var("b"),
                right: var("c"),
            }),
        })))]
    );
}

#[test]
fn function_declaration_parses_to_one_function_statement() {
    let stmts = parse_src("fun f(x) { return x + 1; }").unwrap();
    assert_eq!(
        stmts,
        vec![Box::new(Stmt::Function {
            name: ident("f"),
            params: vec![ident("x")],
            body: vec![Box::new(Stmt::Return {
                keyword: Token::Return,
                value: Some(Box::new(Expr::BinaryExpr {
                    op: Token::Plus,
                    left: var("x"),
                    right: num("1"),
                })),
            })],
        })]
    );
}

#[test]
fn assignment_is_right_associative_and_needs_a_variable_target() {
    let stmts = parse_src("a = b = c;").unwrap();
    assert_eq!(
        stmts,
        vec![Box::new(Stmt::Expr(Box::new(Expr::Assign {
            name: ident("a"),
            value: Box::new(Expr::Assign {
                name: ident("b"),
                value: var("c"),
            }),
        })))]
    );
    assert_eq!(parse_src("1 = 2;"), Err(ParseError::InvalidAssignment));
}

#[test]
fn missing_mandatory_tokens_are_fatal() {
    assert_eq!(parse_src("(a;"), Err(ParseError::ExpectedToken));
    assert_eq!(parse_src("var = 1;"), Err(ParseError::ExpectedIdentifier));
    assert_eq!(parse_src("fun (x) { x; }"), Err(ParseError::ExpectedIdentifier));
    assert_eq!(parse_src(";"), Err(ParseError::ExpectedExpression));
    assert_eq!(parse_src("{ x;"), Err(ParseError::ExpectedExpression));
}

#[test]
fn variable_declaration_defaults_to_the_false_literal() {
    let stmts = parse_src("var x;").unwrap();
    assert_eq!(
        stmts,
        vec![Box::new(Stmt::Var {
            name: ident("x"),
            initializer: Box::new(Expr::Literal {
                value: "false".to_string(),
            }),
        })]
    );
}

#[test]
fn for_loop_desugars_to_a_while_that_keeps_its_stated_condition() {
    let stmts = parse_src("for (var i = 0; i < 3; i = i + 1) i;").unwrap();
    let increment = Box::new(Expr::Assign {
        name: ident("i"),
        value: Box::new(Expr::BinaryExpr {
            op: Token::Plus,
            left: var("i"),
            right: num("1"),
        }),
    });
    assert_eq!(
        stmts,
        vec![Box::new(Stmt::Block(vec![
            Box::new(Stmt::Var {
                name: ident("i"),
                initializer: num("0"),
            }),
            Box::new(Stmt::While {
                condition: Box::new(Expr::BinaryExpr {
                    op: Token::Less,
                    left: var("i"),
                    right: num("3"),
                }),
                body: Box::new(Stmt::Block(vec![
                    Box::new(Stmt::Expr(var("i"))),
                    Box::new(Stmt::Expr(increment)),
                ])),
            }),
        ]))]
    );
}

#[test]
fn if_statement_with_both_branches() {
    let stmts = parse_src("if (x) y; else z;").unwrap();
    assert_eq!(
        stmts,
        vec![Box::new(Stmt::If {
            cond: var("x"),
            then_branch: Box::new(Stmt::Expr(var("y"))),
            else_branch: Some(Box::new(Stmt::Expr(var("z")))),
        })]
    );
}

#[test]
fn while_statement_shape() {
    let stmts = parse_src("while (x < 5) { x; }").unwrap();
    assert_eq!(
        stmts,
        vec![Box::new(Stmt::While {
            condition: Box::new(Expr::BinaryExpr {
                op: Token::Less,
                left: var("x"),
                right: num("5"),
            }),
            body: Box::new(Stmt::Block(vec![Box::new(Stmt::Expr(var("x")))])),
        })]
    );
}

#[test]
fn calls_chain_and_carry_ordered_arguments() {
    let stmts = parse_src("f(1, g())(2);").unwrap();
    let inner = Box::new(Expr::Call {
        callee: var("f"),
        paren: Token::RParen,
        args: vec![
            num("1"),
            Box::new(Expr::Call {
                callee: var("g"),
                paren: Token::RParen,
                args: vec![],
            }),
        ],
    });
    assert_eq!(
        stmts,
        vec![Box::new(Stmt::Expr(Box::new(Expr::Call {
            callee: inner,
            paren: Token::RParen,
            args: vec![num("2")],
        })))]
    );
}

#[test]
fn grouping_unary_and_logical_operators() {
    let stmts = parse_src("-(a);").unwrap();
    assert_eq!(
        stmts,
        vec![Box::new(Stmt::Expr(Box::new(Expr::UnaryExpr {
            op: Token::Minus,
            right: Box::new(Expr::Grouping { expr: var("a") }),
        })))]
    );
    let stmts = parse_src("a or b and c;").unwrap();
    assert_eq!(
        stmts,
        vec![Box::new(Stmt::Expr(Box::new(Expr::Logical {
            op: Token::Or,
            left: var("a"),
            right: Box::new(Expr::Logical {
                op: Token::And,
                left: var("b"),
                right: var("c"),
            }),
        })))]
    );
}

#[test]
fn boolean_literals_parse_as_literal_text() {
    let stmts = parse_src("true; false;").unwrap();
    assert_eq!(
        stmts,
        vec![
            Box::new(Stmt::Expr(num("true"))),
            Box::new(Stmt::Expr(num("false"))),
        ]
    );
}

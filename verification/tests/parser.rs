use colorlang::color::Color;
use colorlang::lexer::lexer;
use colorlang::parser::{
    parse_tokens_to_statement, Call, Expression, IncludeStatement, LetStatement, ParseFault,
    Statement,
};
use std::collections::VecDeque;

fn assert_function(test_name: &str, a: Call, b: Call) {
    assert_eq!(a.name, b.name, "{}", test_name);
    assert_eq!(a.args.len(), b.args.len(), "{}", test_name);
    for (a_i, b_i) in a.args.into_iter().zip(b.args.into_iter()) {
        assert_expression(test_name, a_i, b_i)
    }
}

fn assert_expression(test_name: &str, a: Expression, b: Expression) {
    match a {
        Expression::Color(a_val) => match b {
            Expression::Color(b_val) => {
                assert_eq!(a_val, b_val, "{}", test_name)
            }
            _ => panic!("{}", test_name),
        },
        Expression::Call(a_val) => match b {
            Expression::Call(b_val) => assert_function(test_name, a_val, b_val),
            _ => panic!("{}", test_name),
        },
        Expression::Int(a_val) => match b {
            Expression::Int(b_val) => {
                assert_eq!(a_val, b_val, "{}", test_name);
            }
            _ => panic!("{}", test_name),
        },
        Expression::Identifier(a_val) => match b {
            Expression::Identifier(b_val) => {
                assert_eq!(a_val, b_val, "{}", test_name)
            }
            _ => panic!("{}", test_name),
        },
    }
}

fn assert_let_stmt(test_name: &str, a: LetStatement, b: LetStatement) {
    assert_eq!(a.left, b.left, "{}", test_name);
    assert_expression(test_name, a.right, b.right);
}

fn test_parse_statement(test_name: &str, stmt_str: &str, assert_stmt: Statement) {
    let mut chars: VecDeque<char> = stmt_str.chars().collect();
    let tokens = lexer(&mut chars).unwrap();
    let parsed = parse_tokens_to_statement(tokens).unwrap();

    match parsed {
        Statement::Include(include_stmt) => match assert_stmt {
            Statement::Include(a_include_stmt) => {
                assert_eq!(include_stmt.path, a_include_stmt.path, "{}", test_name)
            }
            _ => panic!("{}", test_name),
        },
        Statement::Let(let_stmt) => match assert_stmt {
            Statement::Let(a_let_stmt) => assert_let_stmt(test_name, let_stmt, a_let_stmt),
            _ => panic!("{}", test_name),
        },
    }
}

fn test_parse_statement_err(test_name: &str, stmt_str: &str, assert: ParseFault) {
    let mut chars: VecDeque<char> = stmt_str.chars().collect();
    let tokens = lexer(&mut chars).unwrap();
    let parsed = parse_tokens_to_statement(tokens).unwrap_err();
    assert_eq!(parsed, assert);
}

#[test]
fn test_parse_tokens_to_statement() {
    test_parse_statement(
        "1",
        "let hello = #ffffff",
        Statement::Let(LetStatement {
            left: "hello".to_string(),
            right: Expression::Color(Color::new(255, 255, 255)),
        }),
    );
    test_parse_statement(
        "2",
        "let color1 = #ffffff",
        Statement::Let(LetStatement {
            left: "color1".to_string(),
            right: Expression::Color(Color::new(255, 255, 255)),
        }),
    );
    test_parse_statement(
        "3",
        "let color1 = #abcdef",
        Statement::Let(LetStatement {
            left: "color1".to_string(),
            right: Expression::Color(Color::new(0xab, 0xcd, 0xef)),
        }),
    );
    test_parse_statement(
        "4",
        "include /hello/world",
        Statement::Include(IncludeStatement {
            path: "/hello/world".to_string(),
        }),
    );
    test_parse_statement(
        "5",
        "let hello = rgb(10,20,30)",
        Statement::Let(LetStatement {
            left: "hello".to_string(),
            right: Expression::Call(Call {
                name: "rgb".to_string(),
                args: vec![
                    Expression::Int(10),
                    Expression::Int(20),
                    Expression::Int(30),
                ],
            }),
        }),
    );
    test_parse_statement(
        "6",
        "let hello = plus(rgb(10,10,10),10,20,30)",
        Statement::Let(LetStatement {
            left: "hello".to_string(),

            right: Expression::Call(Call {
                name: "plus".to_string(),
                args: vec![
                    Expression::Call(Call {
                        name: "rgb".to_string(),
                        args: vec![
                            Expression::Int(10),
                            Expression::Int(10),
                            Expression::Int(10),
                        ],
                    }),
                    Expression::Int(10),
                    Expression::Int(20),
                    Expression::Int(30),
                ],
            }),
        }),
    );
    test_parse_statement(
        "7 shrort let",
        "hello = plus(rgb(10,10,10),10,20,30)",
        Statement::Let(LetStatement {
            left: "hello".to_string(),

            right: Expression::Call(Call {
                name: "plus".to_string(),
                args: vec![
                    Expression::Call(Call {
                        name: "rgb".to_string(),
                        args: vec![
                            Expression::Int(10),
                            Expression::Int(10),
                            Expression::Int(10),
                        ],
                    }),
                    Expression::Int(10),
                    Expression::Int(20),
                    Expression::Int(30),
                ],
            }),
        }),
    );
}

#[test]
fn parse_tokens_to_statement_err() {
    test_parse_statement_err("1", "hello", ParseFault::Syntax);
    test_parse_statement_err("2", "let hello hello = hello", ParseFault::Syntax);
    test_parse_statement_err("3", "let hello = hello( 10 ", ParseFault::Syntax);
    test_parse_statement_err("4", "let hello = hello( 10 ", ParseFault::Syntax);
    test_parse_statement_err("5", " = cargo ", ParseFault::Syntax);
    test_parse_statement_err("6", "include 1", ParseFault::Syntax);
    test_parse_statement_err("7", "include hello hello", ParseFault::Syntax);
}

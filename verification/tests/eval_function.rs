use colorlang::color::Color;
use colorlang::envroiment::Envroiment;
use colorlang::eval::function::{eval_minus_function, eval_plus_function, eval_rgb_function};
use colorlang::eval::{EvalFault, Value};
use colorlang::parser::Expression;

fn assert_eval_minus_func_err(args: Vec<Expression>, env_vars: Vec<(&str, Color)>, assert_val: EvalFault) {
    let mut env = Envroiment::new();
    for var in env_vars {
        env.set(var.0.to_string(), var.1)
    }

    let result = eval_minus_function(args, &mut env).unwrap_err();

    assert_eq!(result, assert_val);
}

fn assert_eval_minus_func_ok(args: Vec<Expression>, env_vars: Vec<(&str, Color)>, assert_val: Value) {
    let mut env = Envroiment::new();
    for var in env_vars {
        env.set(var.0.to_string(), var.1)
    }

    let result = eval_minus_function(args, &mut env).unwrap();

    assert_eq!(result, assert_val);
}

fn assert_eval_plus_func_err(args: Vec<Expression>, env_vars: Vec<(&str, Color)>, assert_val: EvalFault) {
    let mut env = Envroiment::new();
    for var in env_vars {
        env.set(var.0.to_string(), var.1)
    }

    let result = eval_plus_function(args, &mut env).unwrap_err();

    assert_eq!(result, assert_val);
}

fn assert_eval_plus_func_ok(args: Vec<Expression>, env_vars: Vec<(&str, Color)>, assert_val: Value) {
    let mut env = Envroiment::new();
    for var in env_vars {
        env.set(var.0.to_string(), var.1)
    }

    let result = eval_plus_function(args, &mut env).unwrap();

    assert_eq!(result, assert_val);
}

#[test]
fn test_eval_minus_func() {
    assert_eval_minus_func_ok(
        vec![
            Expression::Color(Color::new(110, 110, 110)),
            Expression::Int(10),
            Expression::Int(10),
            Expression::Int(10),
        ],
        vec![],
        Value::Color(Color::new(100, 100, 100)),
    );
    assert_eval_minus_func_ok(
        vec![
            Expression::Color(Color::new(0, 110, 254)),
            Expression::Int(1),
            Expression::Int(111),
            Expression::Int(255),
        ],
        vec![],
        Value::Color(Color::new(0, 0, 0)),
    );
    assert_eval_minus_func_ok(
        vec![
            Expression::Identifier("hello".to_string()),
            Expression::Int(100),
            Expression::Int(10),
            Expression::Int(0),
        ],
        vec![("hello", Color::new(100, 200, 100))],
        Value::Color(Color::new(0, 190, 100)),
    );
}

#[test]
fn test_eval_plus_func() {
    assert_eval_plus_func_ok(
        vec![
            Expression::Color(Color::new(10, 10, 10)),
            Expression::Int(10),
            Expression::Int(10),
            Expression::Int(10),
        ],
        vec![],
        Value::Color(Color::new(20, 20, 20)),
    );

    assert_eval_plus_func_ok(
        vec![
            Expression::Identifier("hello".to_string()),
            Expression::Int(100),
            Expression::Int(10),
            Expression::Int(0),
        ],
        vec![("hello", Color::new(100, 200, 255))],
        Value::Color(Color::new(200, 210, 255)),
    );

    assert_eval_plus_func_ok(
        vec![
            Expression::Color(Color::new(255, 100, 10)),
            Expression::Int(100),
            Expression::Int(10),
            Expression::Int(0),
        ],
        vec![],
        Value::Color(Color::new(255, 110, 10)),
    );
}

#[test]
fn test_eval_plus_func_err() {
    assert_eval_plus_func_err(vec![], vec![], EvalFault::NumArgments { req: 4, got: 0 });

    assert_eval_plus_func_err(
        vec![
            Expression::Int(1),
            Expression::Int(1),
            Expression::Int(1),
            Expression::Int(1),
            Expression::Int(1),
        ],
        vec![],
        EvalFault::NumArgments { req: 4, got: 5 },
    );

    assert_eval_plus_func_err(
        vec![Expression::Int(1)],
        vec![],
        EvalFault::NumArgments { req: 4, got: 1 },
    );

    assert_eval_plus_func_err(
        vec![
            Expression::Int(0),
            Expression::Int(100),
            Expression::Int(10),
            Expression::Int(0),
        ],
        vec![],
        EvalFault::ArgType,
    );

    assert_eval_plus_func_err(
        vec![
            Expression::Int(0),
            Expression::Color(Color::new(10, 10, 10)),
            Expression::Int(10),
            Expression::Int(0),
        ],
        vec![],
        EvalFault::ArgType,
    );
}

#[test]
fn test_eval_minus_func_err() {
    assert_eval_minus_func_err(vec![], vec![], EvalFault::NumArgments { req: 4, got: 0 });

    assert_eval_minus_func_err(
        vec![
            Expression::Int(1),
            Expression::Int(1),
            Expression::Int(1),
            Expression::Int(1),
            Expression::Int(1),
        ],
        vec![],
        EvalFault::NumArgments { req: 4, got: 5 },
    );

    assert_eval_minus_func_err(
        vec![Expression::Int(1)],
        vec![],
        EvalFault::NumArgments { req: 4, got: 1 },
    );

    assert_eval_minus_func_err(
        vec![
            Expression::Int(0),
            Expression::Int(100),
            Expression::Int(10),
            Expression::Int(0),
        ],
        vec![],
        EvalFault::ArgType,
    );

    assert_eval_minus_func_err(
        vec![
            Expression::Int(0),
            Expression::Color(Color::new(10, 10, 10)),
            Expression::Int(10),
            Expression::Int(0),
        ],
        vec![],
        EvalFault::ArgType,
    );
}

#[test]
fn test_eval_rgb_func() {
    let r = eval_rgb_function(vec![
        Expression::Int(20),
        Expression::Int(30),
        Expression::Int(40),
    ])
    .unwrap();
    assert_eq!(r, Value::Color(Color::new(20, 30, 40)));

    // wrong arity faults with the expected and actual counts
    let r = eval_rgb_function(vec![Expression::Int(20), Expression::Int(30)]).unwrap_err();
    assert_eq!(r, EvalFault::NumArgments { req: 3, got: 2 });

    let r = eval_rgb_function(vec![
        Expression::Int(1),
        Expression::Int(2),
        Expression::Int(3),
        Expression::Int(4),
    ])
    .unwrap_err();
    assert_eq!(r, EvalFault::NumArgments { req: 3, got: 4 });

    // rgb never evaluates its arguments, so an identifier is a type fault
    let r = eval_rgb_function(vec![
        Expression::Identifier("a".to_string()),
        Expression::Int(2),
        Expression::Int(3),
    ])
    .unwrap_err();
    assert_eq!(r, EvalFault::ArgType);
}

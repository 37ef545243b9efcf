use colorlang::color::Color;
use colorlang::envroiment::Envroiment;

fn test_vars_json(vars: Vec<(&str, Color)>, json: &str) {
    let mut env = Envroiment::new();
    for v in vars {
        env.set(v.0.to_string(), v.1);
    }
    assert_eq!(env.vars_json(), json);
}

#[test]
fn vars_json() {
    test_vars_json(vec![("helo", Color::new(10, 10, 10))], "{\"helo\":\"#0a0a0a\"}");

    test_vars_json(vec![("helo", Color::new(20, 16, 255))], "{\"helo\":\"#1410ff\"}");

    test_vars_json(
        vec![
            ("a", Color::new(20, 16, 255)),
            ("b", Color::new(20, 16, 255)),
            ("c", Color::new(20, 16, 255)),
        ],
        "{\"a\":\"#1410ff\",\"b\":\"#1410ff\",\"c\":\"#1410ff\"}",
    );

    // overwriting
    test_vars_json(
        vec![
            ("a", Color::new(20, 16, 255)),
            ("c", Color::new(20, 16, 255)),
            ("a", Color::new(16, 16, 16)),
        ],
        "{\"a\":\"#101010\",\"c\":\"#1410ff\"}",
    );

    test_vars_json(vec![], "{}");

    test_vars_json(
        vec![("a", Color::new(20, 16, 255)), ("b", Color::new(20, 16, 255))],
        "{\"a\":\"#1410ff\",\"b\":\"#1410ff\"}",
    );
}

#[test]
fn vars_json_sorts_keys() {
    test_vars_json(
        vec![
            ("zzz", Color::new(1, 1, 1)),
            ("mid", Color::new(2, 2, 2)),
            ("aaa", Color::new(3, 3, 3)),
        ],
        "{\"aaa\":\"#030303\",\"mid\":\"#020202\",\"zzz\":\"#010101\"}",
    );
}

#[test]
fn redefining_overwrites() {
    let mut env = Envroiment::new();
    env.set("hello".to_string(), Color::new(1, 2, 3));
    env.set("other".to_string(), Color::new(9, 9, 9));
    assert_eq!(env.get(&"hello".to_string()), Some(Color::new(1, 2, 3)));
    env.set("hello".to_string(), Color::new(4, 5, 6));
    assert_eq!(env.get(&"hello".to_string()), Some(Color::new(4, 5, 6)));
    assert_eq!(env.get(&"other".to_string()), Some(Color::new(9, 9, 9)));
    assert_eq!(env.vars_len(), 2);
    assert_eq!(env.get(&"missing".to_string()), None);
}

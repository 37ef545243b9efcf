use colorlang::color::Color;
use colorlang::lexer::{lexer, Token};
use std::collections::VecDeque;

fn test_lexer(line: &str, assert: Vec<Token>) {
    let mut test: VecDeque<char> = line.chars().collect();
    let parsed = Vec::from(lexer(&mut test).unwrap());
    assert_eq!(parsed, assert);
}

#[test]
fn _parse_line() {
    test_lexer(
        "hello\n//hello\nfoo // hello \nlet hello",
        vec![
            Token::Identifier("hello".to_string()),
            Token::Identifier("foo".to_string()),
            Token::Let,
            Token::Identifier("hello".to_string()),
        ],
    );

    test_lexer(
        "hello\n//hello\nfoo",
        vec![
            Token::Identifier("hello".to_string()),
            Token::Identifier("foo".to_string()),
        ],
    );

    test_lexer("hello/", vec![Token::Identifier("hello/".to_string())]);

    test_lexer("hello//", vec![Token::Identifier("hello".to_string())]);

    test_lexer("// hello", vec![]);

    test_lexer(
        "\
            // hello
            let hello
            // hello
            ",
        vec![Token::Let, Token::Identifier("hello".to_string())],
    );

    test_lexer(
        "\
            include / /
            ",
        vec![
            Token::Include,
            Token::Identifier("/".to_string()),
            Token::Identifier("/".to_string()),
        ],
    );

    let mut test: VecDeque<char> = "()=,".chars().collect();
    let parsed = Vec::from(lexer(&mut test).unwrap());
    assert_eq!(
        parsed,
        vec![Token::LeftPare, Token::RightPare, Token::Assign, Token::Comma,]
    );

    let mut test: VecDeque<char> = "let hello = #ffffff".chars().collect();
    let parsed = Vec::from(lexer(&mut test).unwrap());
    assert_eq!(
        parsed,
        vec![
            Token::Let,
            Token::Identifier("hello".to_string()),
            Token::Assign,
            Token::HexColor(Color::new(255, 255, 255))
        ]
    );

    let mut test: VecDeque<char> = "     let    hello    = \n \t  #ffffff".chars().collect();
    let parsed = Vec::from(lexer(&mut test).unwrap());
    assert_eq!(
        parsed,
        vec![
            Token::Let,
            Token::Identifier("hello".to_string()),
            Token::Assign,
            Token::HexColor(Color::new(255, 255, 255))
        ]
    );

    let mut test: VecDeque<char> = "let hello=color1".chars().collect();
    let parsed = Vec::from(lexer(&mut test).unwrap());
    assert_eq!(
        parsed,
        vec![
            Token::Let,
            Token::Identifier("hello".to_string()),
            Token::Assign,
            Token::Identifier("color1".to_string()),
        ]
    );

    let mut test: VecDeque<char> = "_hello==letaaa".chars().collect();
    let parsed = Vec::from(lexer(&mut test).unwrap());
    assert_eq!(
        parsed,
        vec![
            Token::Identifier("_hello".to_string()),
            Token::Assign,
            Token::Assign,
            Token::Identifier("letaaa".to_string()),
        ]
    );

    let mut test: VecDeque<char> = "hello#101010aaa=aaa".chars().collect();
    let parsed = Vec::from(lexer(&mut test).unwrap());
    assert_eq!(
        parsed,
        vec![
            Token::Identifier("hello".to_string()),
            Token::HexColor(Color::new(16, 16, 16)),
            Token::Identifier("aaa".to_string()),
            Token::Assign,
            Token::Identifier("aaa".to_string()),
        ]
    );

    let mut test: VecDeque<char> = "#".chars().collect();
    let parsed = lexer(&mut test);
    assert!(parsed.is_err());

    let mut test: VecDeque<char> = "#aa".chars().collect();
    let parsed = lexer(&mut test);
    assert!(parsed.is_err());

    let mut test: VecDeque<char> = "#gg".chars().collect();
    let parsed = lexer(&mut test);
    assert!(parsed.is_err());

    let mut test: VecDeque<char> = "aaaa#aaaaa".chars().collect();
    let parsed = lexer(&mut test);
    assert!(parsed.is_err());

    let mut test: VecDeque<char> = "aaaa#aa".chars().collect();
    let parsed = lexer(&mut test);
    assert!(parsed.is_err());

    let mut test: VecDeque<char> = "((((()))))aaa((((()))))".chars().collect();
    let parsed = Vec::from(lexer(&mut test).unwrap());
    assert_eq!(
        parsed,
        vec![
            Token::LeftPare,
            Token::LeftPare,
            Token::LeftPare,
            Token::LeftPare,
            Token::LeftPare,
            Token::RightPare,
            Token::RightPare,
            Token::RightPare,
            Token::RightPare,
            Token::RightPare,
            Token::Identifier("aaa".to_string()),
            Token::LeftPare,
            Token::LeftPare,
            Token::LeftPare,
            Token::LeftPare,
            Token::LeftPare,
            Token::RightPare,
            Token::RightPare,
            Token::RightPare,
            Token::RightPare,
            Token::RightPare,
        ]
    );
    let mut test: VecDeque<char> = "let aaa = hello(aaa)".chars().collect();
    let parsed = Vec::from(lexer(&mut test).unwrap());
    assert_eq!(
        parsed,
        vec![
            Token::Let,
            Token::Identifier("aaa".to_string()),
            Token::Assign,
            Token::Identifier("hello".to_string()),
            Token::LeftPare,
            Token::Identifier("aaa".to_string()),
            Token::RightPare,
        ]
    );

    let mut test: VecDeque<char> = "let( )  aaa()   ( aaa )".chars().collect();
    let parsed = Vec::from(lexer(&mut test).unwrap());
    assert_eq!(
        parsed,
        vec![
            Token::Let,
            Token::LeftPare,
            Token::RightPare,
            Token::Identifier("aaa".to_string()),
            Token::LeftPare,
            Token::RightPare,
            Token::LeftPare,
            Token::Identifier("aaa".to_string()),
            Token::RightPare,
        ]
    );
    let mut test: VecDeque<char> = "let()aaa()(aaa)".chars().collect();
    let parsed = Vec::from(lexer(&mut test).unwrap());
    assert_eq!(
        parsed,
        vec![
            Token::Let,
            Token::LeftPare,
            Token::RightPare,
            Token::Identifier("aaa".to_string()),
            Token::LeftPare,
            Token::RightPare,
            Token::LeftPare,
            Token::Identifier("aaa".to_string()),
            Token::RightPare,
        ]
    );

    let mut test: VecDeque<char> = "a-b 100-10".chars().collect();
    let parsed = Vec::from(lexer(&mut test).unwrap());
    assert_eq!(
        parsed,
        vec![
            Token::Identifier("a-b".to_string()),
            Token::Identifier("100-10".to_string()),
        ]
    );

    let mut test: VecDeque<char> = "255 256 0 -1".chars().collect();
    let parsed = Vec::from(lexer(&mut test).unwrap());
    assert_eq!(
        parsed,
        vec![
            Token::Int(255),
            Token::Identifier("256".to_string()),
            Token::Int(0),
            Token::Identifier("-1".to_string()),
        ]
    );

    let mut test: VecDeque<char> = "a(1,3,4,hello,  aaa,a-b, \n aaa\na,s)".chars().collect();
    let parsed = Vec::from(lexer(&mut test).unwrap());
    assert_eq!(
        parsed,
        vec![
            Token::Identifier("a".to_string()),
            Token::LeftPare,
            Token::Int(1),
            Token::Comma,
            Token::Int(3),
            Token::Comma,
            Token::Int(4),
            Token::Comma,
            Token::Identifier("hello".to_string()),
            Token::Comma,
            Token::Identifier("aaa".to_string()),
            Token::Comma,
            Token::Identifier("a-b".to_string()),
            Token::Comma,
            Token::Identifier("aaa".to_string()),
            Token::Identifier("a".to_string()),
            Token::Comma,
            Token::Identifier("s".to_string()),
            Token::RightPare
        ]
    );

    let mut test: VecDeque<char> = "let a10 = rgb(10) 100 a0 0xa0 4294967297".chars().collect();
    let parsed = Vec::from(lexer(&mut test).unwrap());
    assert_eq!(
        parsed,
        vec![
            Token::Let,
            Token::Identifier("a10".to_string()),
            Token::Assign,
            Token::Identifier("rgb".to_string()),
            Token::LeftPare,
            Token::Int(10),
            Token::RightPare,
            Token::Int(100),
            Token::Identifier("a0".to_string()),
            Token::Identifier("0xa0".to_string()),
            Token::Identifier("4294967297".to_string()),
        ]
    );
}

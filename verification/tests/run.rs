use colorlang::app_path::AbsFilePath;
use colorlang::color::Color;
use colorlang::envroiment::Envroiment;
use colorlang::fault::Fault;
use colorlang::files::MemFileSource;
use colorlang::parser::ParseFault;
use colorlang::run::run;

fn test_run_(code: &str, vars: Vec<(&str, Color)>, errs: Vec<Fault>) {
    let mut env = Envroiment::new();
    let mut fs = MemFileSource::new();
    run(
        &mut env,
        code.chars().collect(),
        AbsFilePath::create_decoy(),
        &mut fs,
    );
    assert_eq!(env.vars_len(), vars.len());
    assert_eq!(env.faults.len(), errs.len());

    for err in errs.iter().zip(&env.faults) {
        assert_eq!(err.0.msg(), err.1.msg())
    }

    for var in vars {
        assert_eq!(env.get(&var.0.to_string()).unwrap(), var.1);
    }
}

#[test]
fn test_run() {
    let code = "\
        let hello = #ffffff;
        let color2 = rgb( 20, 30, 40 );
        ";
    let mut env = Envroiment::new();
    let mut fs = MemFileSource::new();
    run(
        &mut env,
        code.chars().collect(),
        AbsFilePath::create_decoy(),
        &mut fs,
    );
    assert_eq!(env.get(&"hello".to_string()), Some(Color::new(255, 255, 255)));
    assert_eq!(env.get(&"color2".to_string()), Some(Color::new(20, 30, 40)));

    let code = "\
        let hello = #ffffff;
        let color2 = rgb( 20, 30, 40 );
        let color2 = #101010;
        let color3 = plus( color2, 10, 20, 30 );
        let color4 = minus(
            plus( color3 ,1,2,3) , 1,2,3
        );
        let color5 = minus(
            plus(
                minus(
                    plus(
                        rgb(1,2,3),
                        10,10,10
                    ),
                    1,2,3
                ),
                1,2,3
            ),
            1,2,3
        );
        let color6 = minus(
            plus(
                minus(
                    plus(
                        #010203,
                        11,10,10
                    ),
                    1,2,3
                ),
                1,2,3
            ),
            1,2,3
        );

        color7 = rgb(10,10,10);
        ";
    let mut env = Envroiment::new();
    let mut fs = MemFileSource::new();
    run(
        &mut env,
        code.chars().collect(),
        AbsFilePath::create_decoy(),
        &mut fs,
    );
    assert_eq!(env.get(&"hello".to_string()), Some(Color::new(255, 255, 255)));
    assert_eq!(env.get(&"color2".to_string()), Some(Color::new(16, 16, 16)));
    assert_eq!(env.get(&"color3".to_string()), Some(Color::new(26, 36, 46)));
    assert_eq!(env.get(&"color4".to_string()), Some(Color::new(26, 36, 46)));
    assert_eq!(env.get(&"color5".to_string()), Some(Color::new(10, 10, 10)));
    assert_eq!(env.get(&"color6".to_string()), Some(Color::new(11, 10, 10)));
    assert_eq!(env.get(&"color7".to_string()), Some(Color::new(10, 10, 10)));

    let code = "\
        hello = rgb(255,150,0);
        hello2 = plus(hello,1,200,100);
        ";
    let mut env = Envroiment::new();
    let mut fs = MemFileSource::new();
    run(
        &mut env,
        code.chars().collect(),
        AbsFilePath::create_decoy(),
        &mut fs,
    );
    assert_eq!(env.get(&"hello".to_string()), Some(Color::new(255, 150, 0)));
    assert_eq!(env.get(&"hello2".to_string()), Some(Color::new(255, 255, 100)));

    let code = "\
        hello = rgb(0,0,0);
        hello2 = minus(hello,1,1,1);
        ";
    let mut env = Envroiment::new();
    let mut fs = MemFileSource::new();
    run(
        &mut env,
        code.chars().collect(),
        AbsFilePath::create_decoy(),
        &mut fs,
    );
    assert_eq!(env.get(&"hello".to_string()), Some(Color::new(0, 0, 0)));
    assert_eq!(env.get(&"hello2".to_string()), Some(Color::new(0, 0, 0)));

    let code = "\
        hello2 = hello
        ";
    let mut env = Envroiment::new();
    let mut fs = MemFileSource::new();
    run(
        &mut env,
        code.chars().collect(),
        AbsFilePath::create_decoy(),
        &mut fs,
    );
    assert_eq!(
        env.faults[0].msg(),
        "RuntimeError: hello is Not Found".to_string()
    );

    let code = "\
        hello = #fffff;
        ";
    let mut env = Envroiment::new();
    let mut fs = MemFileSource::new();
    run(
        &mut env,
        code.chars().collect(),
        AbsFilePath::create_decoy(),
        &mut fs,
    );
    assert_eq!(env.faults[0].msg(), "LexError: value error".to_string());

    let code = "\
        hello = #ffffff hello;
        ";
    let mut env = Envroiment::new();
    let mut fs = MemFileSource::new();
    run(
        &mut env,
        code.chars().collect(),
        AbsFilePath::create_decoy(),
        &mut fs,
    );
    assert_eq!(env.faults[0].msg(), "ParseError: Syntax".to_string());

    let code = "\
        hello  #ffffff;
        ";
    let mut env = Envroiment::new();
    let mut fs = MemFileSource::new();
    run(
        &mut env,
        code.chars().collect(),
        AbsFilePath::create_decoy(),
        &mut fs,
    );
    assert_eq!(env.faults[0].msg(), "ParseError: Syntax".to_string());

    let code = "\
        hello hello2 = #ffffff;
        ";
    let mut env = Envroiment::new();
    let mut fs = MemFileSource::new();
    run(
        &mut env,
        code.chars().collect(),
        AbsFilePath::create_decoy(),
        &mut fs,
    );
    assert_eq!(env.faults[0].msg(), "ParseError: Syntax".to_string());

    test_run_("// let hello = #ffffff", vec![], vec![]);

    test_run_(
        "\
            hello = #ffffff; // hello
            // hello world
            let aaa = rgb( 10,10,10 );
            ",
        vec![
            ("hello", Color::new(0xff, 0xff, 0xff)),
            ("aaa", Color::new(10, 10, 10)),
        ],
        vec![],
    );

    test_run_(
        "\
            let hello = rgb(
                10,
                // aaa
                10,
                // hello
                10
            )",
        vec![("hello", Color::new(10, 10, 10))],
        vec![],
    );

    test_run_(
        "let hello = #ffffff // hello",
        vec![("hello", Color::new(0xff, 0xff, 0xff))],
        vec![],
    );

    test_run_("/ hello /", vec![], vec![Fault::Parse(ParseFault::Syntax)]);

    test_run_("/// // let hello", vec![], vec![]);

    test_run_(
        "let hello = #ffffff/hello",
        vec![],
        vec![Fault::Parse(ParseFault::Syntax)],
    );

    test_run_(
        "let hello = #ffffff//hello",
        vec![("hello", Color::new(255, 255, 255))],
        vec![],
    );

    test_run_("// // let hello", vec![], vec![]);
}

fn path(text: &str) -> AbsFilePath {
    AbsFilePath::from_string(text, None).unwrap()
}

#[test]
fn run_example_end_to_end() {
    let code = "let hello = #ffffff;\nlet color2 = rgb(20,30,40);";
    let mut env = Envroiment::new();
    let mut fs = MemFileSource::new();
    run(&mut env, code.chars().collect(), AbsFilePath::create_decoy(), &mut fs);
    assert_eq!(env.faults.len(), 0);
    assert_eq!(env.vars_len(), 2);
    assert_eq!(env.get(&"hello".to_string()), Some(Color::new(255, 255, 255)));
    assert_eq!(env.get(&"color2".to_string()), Some(Color::new(20, 30, 40)));
    assert_eq!(
        env.vars_json(),
        "{\"color2\":\"#141e28\",\"hello\":\"#ffffff\"}"
    );
}

#[test]
fn run_undefined_identifier() {
    let code = "hello2 = hello";
    let mut env = Envroiment::new();
    let mut fs = MemFileSource::new();
    run(&mut env, code.chars().collect(), AbsFilePath::create_decoy(), &mut fs);
    assert_eq!(env.vars_len(), 0);
    assert_eq!(env.faults.len(), 1);
    assert_eq!(env.faults[0].msg(), "RuntimeError: hello is Not Found");
}

#[test]
fn run_short_hex_literal() {
    let code = "hello = #fffff;";
    let mut env = Envroiment::new();
    let mut fs = MemFileSource::new();
    run(&mut env, code.chars().collect(), AbsFilePath::create_decoy(), &mut fs);
    assert_eq!(env.vars_len(), 0);
    assert_eq!(env.faults.len(), 1);
    assert_eq!(env.faults[0].msg(), "LexError: value error");
}

#[test]
fn run_fault_messages() {
    let code = "let a = rgb(1,2);";
    let mut env = Envroiment::new();
    let mut fs = MemFileSource::new();
    run(&mut env, code.chars().collect(), AbsFilePath::create_decoy(), &mut fs);
    assert_eq!(
        env.faults[0].msg(),
        "RuntimeError: Wrong number of arguments. req=3 got=2"
    );

    let code = "let a = foo(1);";
    let mut env = Envroiment::new();
    let mut fs = MemFileSource::new();
    run(&mut env, code.chars().collect(), AbsFilePath::create_decoy(), &mut fs);
    assert_eq!(env.faults[0].msg(), "RuntimeError: foo is not function");

    let code = "a=#ffffff; b=rgb(a,1,2);";
    let mut env = Envroiment::new();
    let mut fs = MemFileSource::new();
    run(&mut env, code.chars().collect(), AbsFilePath::create_decoy(), &mut fs);
    assert_eq!(
        env.faults[0].msg(),
        "RuntimeError: The type of the argument is differentent."
    );
}

#[test]
fn run_include_binds_through() {
    let mut fs = MemFileSource::new();
    fs.add_file(path("/a/palette"), "let base = #101010;".to_string());
    let code = "include /a/palette;\nlet lighter = plus(base, 10, 10, 10);";
    let mut env = Envroiment::new();
    run(&mut env, code.chars().collect(), path("/a/main"), &mut fs);
    assert_eq!(env.faults.len(), 0);
    assert_eq!(env.get(&"base".to_string()), Some(Color::new(16, 16, 16)));
    assert_eq!(env.get(&"lighter".to_string()), Some(Color::new(26, 26, 26)));
}

#[test]
fn run_include_relative_and_home() {
    let mut fs = MemFileSource::new();
    fs.set_home("/home/usr".to_string());
    fs.add_file(path("/a/sub/two"), "let from_rel = rgb(1,1,1);".to_string());
    fs.add_file(path("/home/usr/three"), "let from_home = rgb(2,2,2);".to_string());
    let code = "include sub/two;\ninclude ~/three;";
    let mut env = Envroiment::new();
    run(&mut env, code.chars().collect(), path("/a/main"), &mut fs);
    assert_eq!(env.faults.len(), 0);
    assert_eq!(env.get(&"from_rel".to_string()), Some(Color::new(1, 1, 1)));
    assert_eq!(env.get(&"from_home".to_string()), Some(Color::new(2, 2, 2)));
}

#[test]
fn run_include_missing_file_and_home() {
    let mut fs = MemFileSource::new();
    let code = "include /a/nope;";
    let mut env = Envroiment::new();
    run(&mut env, code.chars().collect(), path("/a/main"), &mut fs);
    assert_eq!(env.faults.len(), 1);
    assert_eq!(env.faults[0].msg(), "RuntimeError: No such file. path:/a/nope");

    let code = "include ~/nope;";
    let mut env = Envroiment::new();
    run(&mut env, code.chars().collect(), path("/a/main"), &mut fs);
    assert_eq!(env.faults.len(), 1);
    assert_eq!(env.faults[0].msg(), "RuntimeError: FailureGetHomedir");
}

#[test]
fn run_include_malformed_path() {
    // a relative include whose last segment cannot be a file name
    let mut fs = MemFileSource::new();
    let code = "include aaa/..;";
    let mut env = Envroiment::new();
    run(&mut env, code.chars().collect(), path("/a/main"), &mut fs);
    assert_eq!(env.faults.len(), 1);
    assert_eq!(env.faults[0].msg(), "RuntimeError: FaultFileName");

    let code = "include /;";
    let mut env = Envroiment::new();
    run(&mut env, code.chars().collect(), path("/a/main"), &mut fs);
    assert_eq!(env.faults.len(), 1);
    assert_eq!(env.faults[0].msg(), "RuntimeError: FaultFileName");
}

#[test]
fn run_include_cycle_faults() {
    // two files that include each other: the cycle is detected, reported
    // once, and processing after the cycle goes on
    let mut fs = MemFileSource::new();
    fs.add_file(path("/a/one"), "include /a/two;".to_string());
    fs.add_file(
        path("/a/two"),
        "include /a/one;\nlet after = rgb(5,5,5);".to_string(),
    );
    let mut env = Envroiment::new();
    run(
        &mut env,
        "include /a/two;".chars().collect(),
        path("/a/one"),
        &mut fs,
    );
    assert_eq!(env.faults.len(), 1);
    assert_eq!(
        env.faults[0].msg(),
        "IncludeError: Recursive inclusion detected. : /a/one"
    );
    // the statement after the cycle in /a/two still ran
    assert_eq!(env.get(&"after".to_string()), Some(Color::new(5, 5, 5)));
}

#[test]
fn run_include_self_cycle() {
    let mut fs = MemFileSource::new();
    fs.add_file(path("/a/me"), "include /a/me;".to_string());
    let mut env = Envroiment::new();
    run(
        &mut env,
        "include /a/me;".chars().collect(),
        path("/a/me"),
        &mut fs,
    );
    assert_eq!(env.faults.len(), 1);
    assert_eq!(
        env.faults[0].msg(),
        "IncludeError: Recursive inclusion detected. : /a/me"
    );
}

#[test]
fn run_bare_int_let_is_type_fault() {
    let code = "let a = 10;";
    let mut env = Envroiment::new();
    let mut fs = MemFileSource::new();
    run(&mut env, code.chars().collect(), AbsFilePath::create_decoy(), &mut fs);
    assert_eq!(env.vars_len(), 0);
    assert_eq!(env.faults.len(), 1);
    assert_eq!(
        env.faults[0].msg(),
        "RuntimeError: The type of the argument is differentent."
    );
}

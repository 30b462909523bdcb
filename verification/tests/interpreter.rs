use risp::eval;
use risp::RispEnv;
use risp::RispErr;
use risp::RispExp;
use risp::RispParser;
use risp::RispTokenizer;

fn run(src: &str, env: &mut RispEnv) -> Result<RispExp, RispErr> {
    let tokens = RispTokenizer::tokenize(src.to_string());
    let (exp, rest) = RispParser::parse(&tokens).unwrap();
    assert_eq!(rest.len(), 0);
    eval(&exp, env)
}

fn run_default(src: &str) -> Result<RispExp, RispErr> {
    let mut env = RispEnv::default_env();
    run(src, &mut env)
}

fn err_message(r: Result<RispExp, RispErr>) -> String {
    match r {
        Err(RispErr::Reason(m)) => m,
        Ok(_) => panic!("expected an error"),
    }
}

fn as_number(r: Result<RispExp, RispErr>) -> i64 {
    match r {
        Ok(RispExp::Number(n)) => n,
        _ => panic!("expected a number"),
    }
}

fn as_bool(r: Result<RispExp, RispErr>) -> bool {
    match r {
        Ok(RispExp::Bool(b)) => b,
        _ => panic!("expected a boolean"),
    }
}

#[test]
fn test_tokenize() {
    assert_eq!(
        RispTokenizer::tokenize("(+ 10 5)".to_string()),
        vec![
            "(".to_string(),
            "+".to_string(),
            "10".to_string(),
            "5".to_string(),
            ")".to_string()
        ]
    )
}

#[test]
fn test_tokenize_whitespace_kinds() {
    assert_eq!(
        RispTokenizer::tokenize("(a\tb\n  c)".to_string()),
        vec![
            "(".to_string(),
            "a".to_string(),
            "b".to_string(),
            "c".to_string(),
            ")".to_string()
        ]
    );
    assert_eq!(RispTokenizer::tokenize("   \t\n".to_string()), Vec::<String>::new());
    assert_eq!(RispTokenizer::tokenize("".to_string()), Vec::<String>::new());
    // A parenthesis splits atoms even without whitespace around it.
    assert_eq!(
        RispTokenizer::tokenize("a(b".to_string()),
        vec!["a".to_string(), "(".to_string(), "b".to_string()]
    );
}

#[test]
fn test_parse_add() {
    let tokens = vec!["(", "+", "10", "5", ")"]
        .iter()
        .map(|t| t.to_string())
        .collect::<Vec<String>>();

    let (exp, rest) = RispParser::parse(&tokens).unwrap();

    assert_eq!(rest.len(), 0);
    match exp {
        RispExp::List(list) => match (&list[0], &list[1], &list[2]) {
            (RispExp::Symbol(s), RispExp::Number(a), RispExp::Number(b)) => {
                assert_eq!(s, "+");
                assert_eq!(*a, 10);
                assert_eq!(*b, 5);
            }
            _ => assert!(false),
        },
        _ => assert!(false),
    }
}

#[test]
fn test_parse_bool() {
    let tokens = vec!["(", "true", "false", ")"]
        .iter()
        .map(|t| t.to_string())
        .collect::<Vec<String>>();
    let (exp, _) = RispParser::parse(&tokens).unwrap();
    match exp {
        RispExp::List(list) => match (&list[0], &list[1]) {
            (RispExp::Bool(t), RispExp::Bool(f)) => {
                assert_eq!(*t, true);
                assert_eq!(*f, false);
            }
            _ => assert!(false),
        },
        _ => assert!(false),
    }
}

#[test]
fn test_parse_fn() {
    let tokens = vec![
        "(", "fn", "add", "(", "a", "b", ")", "(", "+", "a", "b", ")", ")",
    ]
    .iter()
    .map(|t| t.to_string())
    .collect::<Vec<String>>();

    let (exp, _) = RispParser::parse(&tokens).unwrap();
    match exp {
        RispExp::List(list) => {
            match &list[0] {
                RispExp::Symbol(f) => assert_eq!(f, "fn"),
                _ => assert!(false),
            }
            match &list[1] {
                RispExp::Symbol(f) => assert_eq!(f, "add"),
                _ => assert!(false),
            }
            match &list[2] {
                RispExp::List(args) => match (&args[0], &args[1]) {
                    (RispExp::Symbol(a), RispExp::Symbol(b)) => {
                        assert_eq!(a, "a");
                        assert_eq!(b, "b");
                    }
                    _ => assert!(false),
                },
                _ => assert!(false),
            }
            match &list[3] {
                RispExp::List(body) => match (&body[0], &body[1], &body[2]) {
                    (RispExp::Symbol(o), RispExp::Symbol(a), RispExp::Symbol(b)) => {
                        assert_eq!(o, "+");
                        assert_eq!(a, "a");
                        assert_eq!(b, "b");
                    }
                    _ => assert!(false),
                },
                _ => assert!(false),
            }
        }
        _ => assert!(false),
    }
}

#[test]
fn test_parse_numbers_and_symbols() {
    let mk = |t: &str| vec![t.to_string()];
    match RispParser::parse(&mk("-5")).unwrap().0 {
        RispExp::Number(n) => assert_eq!(n, -5),
        _ => panic!("expected a number"),
    }
    match RispParser::parse(&mk("-")).unwrap().0 {
        RispExp::Symbol(s) => assert_eq!(s, "-"),
        _ => panic!("expected a symbol"),
    }
    match RispParser::parse(&mk("10.5")).unwrap().0 {
        RispExp::Symbol(s) => assert_eq!(s, "10.5"),
        _ => panic!("expected a symbol"),
    }
    match RispParser::parse(&mk("-9223372036854775808")).unwrap().0 {
        RispExp::Number(n) => assert_eq!(n, i64::MIN),
        _ => panic!("expected a number"),
    }
    match RispParser::parse(&mk("9223372036854775808")).unwrap().0 {
        RispExp::Symbol(s) => assert_eq!(s, "9223372036854775808"),
        _ => panic!("expected a symbol"),
    }
}

#[test]
fn test_parse_boundaries() {
    let lparen = vec!["(".to_string()];
    assert_eq!(
        err_message(RispParser::parse(&lparen).map(|p| p.0)),
        "could not find closing `)`"
    );
    let rparen = vec![")".to_string()];
    assert_eq!(
        err_message(RispParser::parse(&rparen).map(|p| p.0)),
        "unexpected `)`"
    );
    let empty: Vec<String> = vec![];
    assert_eq!(
        err_message(RispParser::parse(&empty).map(|p| p.0)),
        "could not get token"
    );
}

#[test]
fn test_parse_leaves_remainder() {
    // The parser consumes one expression and hands back the rest.
    let tokens = vec!["5".to_string(), "6".to_string()];
    let (exp, rest) = RispParser::parse(&tokens).unwrap();
    match exp {
        RispExp::Number(n) => assert_eq!(n, 5),
        _ => panic!("expected a number"),
    }
    assert_eq!(rest, &["6".to_string()]);
}

#[test]
fn test_unicode_whitespace_separates() {
    // U+00A0 (no-break space) has the Unicode white-space property.
    assert_eq!(
        RispTokenizer::tokenize("a\u{a0}b".to_string()),
        vec!["a".to_string(), "b".to_string()]
    );
}

#[test]
fn test_def_inside_lambda_is_local() {
    // A def in a lambda body writes the call's own scope, which is
    // discarded when the call returns.
    let mut env = RispEnv::default_env();
    run("(def g (fn (a) (def z 9)))", &mut env).unwrap();
    assert_eq!(as_number(run("(g 1)", &mut env)), 9);
    assert_eq!(err_message(run("z", &mut env)), "unexpected symbol `z`");
}

#[test]
fn test_nested_arithmetic() {
    // Inner: 3 + 6 = 9; 12 - 9 - 1 = 2; 10 + 2 = 12.
    let tokens = RispTokenizer::tokenize("(+ 10 (- 12 (+ 3 6) 1))".to_string());
    let (exp, rest) = RispParser::parse(&tokens).unwrap();
    assert_eq!(rest.len(), 0);
    let mut env = RispEnv::default_env();
    assert_eq!(as_number(eval(&exp, &mut env)), 12);
}

#[test]
fn test_if_branches() {
    assert_eq!(as_number(run_default("(if (> 3 2) 1 2)")), 1);
    assert_eq!(as_number(run_default("(if (> 2 3) 1 2)")), 2);
}

#[test]
fn test_def_then_reference() {
    let mut env = RispEnv::default_env();
    assert_eq!(as_number(run("(def x 5)", &mut env)), 5);
    assert_eq!(as_number(run("x", &mut env)), 5);
    // A later def overwrites the earlier binding.
    assert_eq!(as_number(run("(def x 7)", &mut env)), 7);
    assert_eq!(as_number(run("x", &mut env)), 7);
}

#[test]
fn test_lambda_round_trip() {
    let mut env = RispEnv::default_env();
    run("(def add (fn (a b) (+ a b)))", &mut env).unwrap();
    assert_eq!(as_number(run("(add 2 3)", &mut env)), 5);
    assert_eq!(
        err_message(run("(add 2)", &mut env)),
        "expected 2 arguments, got 1"
    );
}

#[test]
fn test_monotonic_builtins() {
    assert_eq!(as_bool(run_default("(> 5 3 1)")), true);
    assert_eq!(as_bool(run_default("(> 5 1 3)")), false);
    assert_eq!(as_bool(run_default("(=)")), true);
    assert_eq!(as_bool(run_default("(= 4)")), true);
    assert_eq!(as_bool(run_default("(= 4 4 4)")), true);
    assert_eq!(as_bool(run_default("(<= 1 1 2)")), true);
    assert_eq!(as_bool(run_default("(< 1 1)")), false);
    assert_eq!(as_bool(run_default("(>= 3 3 2)")), true);
}

#[test]
fn test_addition_and_subtraction() {
    assert_eq!(as_number(run_default("(+)")), 0);
    assert_eq!(as_number(run_default("(+ 4)")), 4);
    assert_eq!(as_number(run_default("(- 10 3 2)")), 5);
    assert_eq!(as_number(run_default("(- 4)")), 4);
    assert_eq!(err_message(run_default("(-)")), "expected at least one number");
    assert_eq!(err_message(run_default("(+ true)")), "expected a number");
    assert_eq!(
        err_message(run_default("(+ 9223372036854775807 1)")),
        "number out of range"
    );
}

#[test]
fn test_evaluation_errors() {
    assert_eq!(err_message(run_default("nope")), "unexpected symbol `nope`");
    assert_eq!(err_message(run_default("()")), "expected a non-empty list");
    assert_eq!(err_message(run_default("(1 2)")), "first form must be a function");
    assert_eq!(err_message(run_default("(if)")), "expected test form");
    assert_eq!(err_message(run_default("(if true)")), "expected form idx = 1");
    assert_eq!(err_message(run_default("(if false 1)")), "expected form idx = 2");
    assert_eq!(
        err_message(run_default("(if 3 1 2)")),
        "unexpected test form = `3`"
    );
    assert_eq!(err_message(run_default("(def)")), "expected ident form");
    assert_eq!(
        err_message(run_default("(def 3 4)")),
        "expected ident form to be a symbol"
    );
    assert_eq!(err_message(run_default("(def x)")), "expected value form");
    assert_eq!(
        err_message(run_default("(def x 1 2)")),
        "def takes exactly two forms"
    );
    assert_eq!(
        err_message(run_default("(fn (a))")),
        "fn definition can only have two forms"
    );
    assert_eq!(
        err_message(run_default("((fn 1 2) 3)")),
        "expected args form to be a list"
    );
    assert_eq!(
        err_message(run_default("((fn (1) 2) 3)")),
        "expected symbols in the argument list"
    );
}

#[test]
fn test_reevaluation_is_stable() {
    // Evaluating the same expression against an unmodified environment
    // yields an equal result.
    let mut env = RispEnv::default_env();
    let tokens = RispTokenizer::tokenize("(+ 1 (- 9 4))".to_string());
    let (exp, _) = RispParser::parse(&tokens).unwrap();
    let first = as_number(eval(&exp, &mut env));
    let second = as_number(eval(&exp, &mut env));
    assert_eq!(first, 6);
    assert_eq!(first, second);
}

#[test]
fn test_env_get() {
    let env = RispEnv::default_env();
    match env.get("+") {
        Some(RispExp::Func(_)) => {}
        _ => panic!("expected the + builtin"),
    }
    assert!(env.get("missing").is_none());
    let via_default: RispEnv = Default::default();
    match via_default.get("<=") {
        Some(RispExp::Func(_)) => {}
        _ => panic!("expected the <= builtin"),
    }
}

#[test]
fn test_rendering() {
    assert_eq!(run_default("42").unwrap().to_text(), "42");
    assert_eq!(run_default("-7").unwrap().to_text(), "-7");
    assert_eq!(run_default("true").unwrap().to_text(), "true");
    let tokens = RispTokenizer::tokenize("(a bc 3)".to_string());
    let (exp, _) = RispParser::parse(&tokens).unwrap();
    assert_eq!(exp.to_text(), "(a,bc,3)");
    assert_eq!(run_default("(fn (a) a)").unwrap().to_text(), "Lambda {}");
    assert_eq!(run_default("+").unwrap().to_text(), "Function {}");
}

#[test]
fn test_call_depth_is_bounded() {
    // A self-recursive definition with no base case reports the depth
    // limit instead of recursing forever.
    let mut env = RispEnv::default_env();
    run("(def loop (fn (a) (loop a)))", &mut env).unwrap();
    assert_eq!(
        err_message(run("(loop 1)", &mut env)),
        "exceeded maximum call depth"
    );
}

#[test]
fn test_call_site_scoping() {
    // A free variable in a lambda body resolves against the environment
    // in effect at the call site.
    let mut env = RispEnv::default_env();
    run("(def f (fn (a) (+ a y)))", &mut env).unwrap();
    assert_eq!(err_message(run("(f 1)", &mut env)), "unexpected symbol `y`");
    run("(def y 10)", &mut env).unwrap();
    assert_eq!(as_number(run("(f 1)", &mut env)), 11);
}

use lisp_rs::eval::{arith, concat_vals, eval_obj, get_doc, int_op, module_file, values_equal};
use lisp_rs::report::show;
use lisp_rs::{attempt, eval, ArithOp, Env, EvalError, Host, Object, Reply, Request, Step};

fn float_text(x: f64) -> String {
    x.to_string()
}

fn answer(q: &Request, modules: &[(&str, &str)]) -> Reply {
    match q {
        Request::Float(t) => match t.parse::<f64>() {
            Ok(x) => Reply::Float(float_text(x)),
            Err(_) => Reply::Missing,
        },
        Request::FromInt(n) => Reply::Float(float_text(*n as f64)),
        Request::Arith(op, a, b) => {
            let x: f64 = a.parse().unwrap();
            let y: f64 = b.parse().unwrap();
            match op {
                ArithOp::Add => Reply::Float(float_text(x + y)),
                ArithOp::Sub => Reply::Float(float_text(x - y)),
                ArithOp::Mul => Reply::Float(float_text(x * y)),
                ArithOp::Div => Reply::Float(float_text(x / y)),
                ArithOp::Pow => Reply::Float(float_text(x.powf(y))),
                ArithOp::Lt => Reply::Bool(x < y),
                ArithOp::Gt => Reply::Bool(x > y),
                ArithOp::Eq => Reply::Bool(x == y),
                ArithOp::Ge => Reply::Bool(x >= y),
                ArithOp::Le => Reply::Bool(x <= y),
            }
        }
        Request::Module(p) => match modules.iter().find(|(name, _)| *name == p.as_str()) {
            Some((_, text)) => Reply::Text(text.to_string()),
            None => Reply::Missing,
        },
    }
}

fn run_in(
    program: &str,
    env: &mut Env,
    modules: &[(&str, &str)],
) -> (Result<Object, EvalError>, Vec<String>) {
    let mut host = Host::new();
    loop {
        match attempt(program, env, &mut host) {
            Step::Ask(q) => {
                let a = answer(&q, modules);
                host.answer(q, a);
            }
            Step::Done(r) => return (r, host.output().clone()),
        }
    }
}

fn run(program: &str, env: &mut Env) -> Result<Object, EvalError> {
    run_in(program, env, &[]).0
}

fn printed(program: &str) -> Vec<String> {
    let mut env = Env::new();
    run_in(program, &mut env, &[]).1
}

fn s(x: &str) -> String {
    x.to_string()
}

#[test]
fn test_simple_add() {
    let mut env = Env::new();
    let result = run("(+ 1 2)", &mut env).unwrap();
    assert_eq!(result, Object::Integer(3));
}

#[test]
fn eval_test_area_of_a_circle() {
    let mut env = Env::new();
    let program = "(
                        (define r 10)
                        (define pi 314)
                        (* pi (* r r))
                      )";
    let result = run(program, &mut env).unwrap();
    assert_eq!(
        result,
        Object::List(vec![Object::Integer((314 * 10 * 10) as i64)])
    );
}

#[test]
fn test_sqr_function() {
    let mut env = Env::new();
    let program = "(
                        (define sqr (lambda (r) (* r r))) 
                        (sqr 10)
                       )";
    let result = run(program, &mut env).unwrap();
    assert_eq!(
        result,
        Object::List(vec![Object::Integer((10 * 10) as i64)])
    );
}

#[test]
fn test_fibonacci() {
    let mut env = Env::new();
    let program = "
            (
                (define fib (lambda (n) (if (< n 2) 1 (+ (fib (- n 1)) (fib (- n 2))))))
                (fib 10)
            )
        ";

    let result = run(program, &mut env).unwrap();
    assert_eq!(result, Object::List(vec![Object::Integer(89)]));
}

#[test]
fn test_factorial() {
    let mut env = Env::new();
    let program = "
            (
                (define fact (lambda (n) (if (< n 1) 1 (* n (fact (- n 1))))))
                (fact 5)
            )
        ";

    let result = run(program, &mut env).unwrap();
    assert_eq!(result, Object::List(vec![Object::Integer(120)]));
}

#[test]
fn test_circle_area_function() {
    let mut env = Env::new();
    let program = "
            (
                (define pi 314)
                (define r 10)
                (define sqr (lambda (r) (* r r)))
                (define area (lambda (r) (* pi (sqr r))))
                (area r)
            )
        ";

    let result = run(program, &mut env).unwrap();
    assert_eq!(
        result,
        Object::List(vec![Object::Integer((314 * 10 * 10) as i64)])
    );
}

#[test]
fn test_print_correct_str() {
    let mut env = Env::new();
    let program = r#"
            (
                (define age 50)
                (define old "Youre Old")
                (define young "Youre Young")
                (define res (lambda (age) (if (>= age 40) old young)))
                (res 40)
            )
        "#;

    let result = run(program, &mut env).unwrap();
    assert_eq!(
        result,
        Object::List(vec![Object::Str("Youre Old".to_string())])
    );
}

#[test]
fn test_concat_str() {
    let mut env = Env::new();
    let program = r#"
            (
                (define name "Midnight ")
                (define phrase "esta fumado 🚬")
                (concat name phrase)
            )
            "#;

    let result = run(program, &mut env).unwrap();
    assert_eq!(
        result,
        Object::List(vec![Object::Str("Midnight esta fumado 🚬".to_string())])
    );
}

#[test]
fn float_operations() {
    let mut env = Env::new();

    let program = r#"
            (
                (define PI 3.1416)
                (define r 3)
                (define area (lambda (r) (* PI (* r r))))
                (area r)
            )"#;

    let result = run(program, &mut env).unwrap();

    assert_eq!(result, Object::List(vec![Object::Float(float_text(28.2744))]));
}

#[test]
fn negative_operations() {
    let mut env = Env::new();

    let program = r#"
            (
                (define debt -4000)
                (define money 6000)
                (+ money debt)
            )"#;

    let result = run(program, &mut env).unwrap();

    assert_eq!(result, Object::List(vec![Object::Integer(2000)]));
}

#[test]
fn equal_keyword() {
    let mut env = Env::new();

    let program = r#"
            (
                (define age 20)
                (equal age 29)
            )
        "#;

    let result = run(program, &mut env).unwrap();

    assert_eq!(result, Object::List(vec![Object::Bool(false)]));
}

#[test]
fn equal_evaluates_both_sides() {
    let mut env = Env::new();
    assert_eq!(run("(equal (+ 1 1) 2)", &mut env), Ok(Object::Bool(true)));
    assert_eq!(run("(equal 20 29)", &mut env), Ok(Object::Bool(false)));
    assert_eq!(run("(equal 0.0 -0.0)", &mut env), Ok(Object::Bool(true)));
    assert_eq!(run("(equal \"a\" \"a\")", &mut env), Ok(Object::Bool(true)));
    assert_eq!(run("(equal 1 1.0)", &mut env), Ok(Object::Bool(false)));
}

#[test]
fn defining_a_keyword_fails() {
    let mut env = Env::new();
    assert_eq!(run("(define if 5)", &mut env), Err(EvalError::DefineKeyword(s("if"))));
    assert_eq!(env.get("if"), None);
}

#[test]
fn unbound_names_fail_everywhere() {
    let mut env = Env::new();
    assert_eq!(run("((+ 1 2) x)", &mut env), Err(EvalError::Unbound(s("x"))));
    assert_eq!(run("(+ x 1)", &mut env), Err(EvalError::Unbound(s("x"))));
    assert_eq!(run("(+ 1 x)", &mut env), Err(EvalError::Unbound(s("x"))));
    assert_eq!(run("(f 1)", &mut env), Err(EvalError::Unbound(s("f"))));
    assert_eq!(run("(print x)", &mut env), Err(EvalError::Unbound(s("x"))));
    assert_eq!(run("((true))", &mut env), Err(EvalError::BadKeyword(s("true"))));
}

#[test]
fn program_keeps_only_values_that_are_not_void() {
    let mut env = Env::new();
    assert_eq!(
        run("((define a 1) a (print a) 2)", &mut env),
        Ok(Object::List(vec![Object::Integer(1), Object::Integer(2)]))
    );
    assert_eq!(run("()", &mut env), Ok(Object::Void));
}

#[test]
fn definitions_stay_in_the_environment() {
    let mut env = Env::new();
    run("(define a 41)", &mut env).unwrap();
    assert_eq!(run("(+ a 1)", &mut env), Ok(Object::Integer(42)));
}

#[test]
fn calls_see_the_callers_frame() {
    let mut env = Env::new();
    let program = "((define g (lambda () (+ y 0))) (define h (lambda (y) (g))) (h 7))";
    assert_eq!(run(program, &mut env), Ok(Object::List(vec![Object::Integer(7)])));
    assert_eq!(env.get("y"), None);
}

#[test]
fn integer_arithmetic() {
    let mut env = Env::new();
    assert_eq!(run("(/ -7 2)", &mut env), Ok(Object::Integer(-3)));
    assert_eq!(run("(- 3 10)", &mut env), Ok(Object::Integer(-7)));
    assert_eq!(run("(^ 2 10)", &mut env), Ok(Object::Integer(1024)));
    assert_eq!(run("(^ -1 5)", &mut env), Ok(Object::Integer(-1)));
    assert_eq!(run("(^ -2 63)", &mut env), Ok(Object::Integer(i64::MIN)));
    assert_eq!(run("(^ 0 0)", &mut env), Ok(Object::Integer(1)));
    assert_eq!(run("(>= 3 3)", &mut env), Ok(Object::Bool(true)));
    assert_eq!(run("(== 3 4)", &mut env), Ok(Object::Bool(false)));
    assert_eq!(run("(/ 1 0)", &mut env), Err(EvalError::DivisionByZero));
    assert_eq!(run("(^ 2 64)", &mut env), Err(EvalError::Overflow));
    assert_eq!(run("(^ 2 -1)", &mut env), Err(EvalError::NegativeExponent));
    assert_eq!(run("(* 9223372036854775807 2)", &mut env), Err(EvalError::Overflow));
    assert_eq!(run("(/ -9223372036854775808 -1)", &mut env), Err(EvalError::Overflow));
}

#[test]
fn int_op_gives_exact_results() {
    assert_eq!(int_op(ArithOp::Add, 2, 3), Ok(Object::Integer(5)));
    assert_eq!(int_op(ArithOp::Div, 7, -2), Ok(Object::Integer(-3)));
    assert_eq!(int_op(ArithOp::Pow, 3, 4), Ok(Object::Integer(81)));
    assert_eq!(int_op(ArithOp::Lt, 3, 4), Ok(Object::Bool(true)));
}

#[test]
fn float_arithmetic_goes_through_the_host() {
    let mut env = Env::new();
    assert_eq!(run("(/ 1.0 0)", &mut env), Ok(Object::Float(s("inf"))));
    assert_eq!(run("(+ 0.1 0.2)", &mut env), Ok(Object::Float(float_text(0.1 + 0.2))));
    assert_eq!(run("(< 1 1.5)", &mut env), Ok(Object::Bool(true)));
    assert_eq!(run("(^ 2.0 0.5)", &mut env), Ok(Object::Float(float_text(2f64.powf(0.5)))));
    assert_eq!(run("(+ 1.50 0)", &mut env), Ok(Object::Float(s("1.5"))));
}

#[test]
fn arith_uses_the_answers_given() {
    let mut host = Host::new();
    let l = Object::Float(s("1.5"));
    let r = Object::Integer(2);
    assert_eq!(
        arith(ArithOp::Mul, &l, &r, &host),
        Err(EvalError::Needs(Request::FromInt(2)))
    );
    host.answer(Request::FromInt(2), Reply::Float(s("2")));
    assert_eq!(
        arith(ArithOp::Mul, &l, &r, &host),
        Err(EvalError::Needs(Request::Arith(ArithOp::Mul, s("1.5"), s("2"))))
    );
    host.answer(Request::Arith(ArithOp::Mul, s("1.5"), s("2")), Reply::Float(s("3")));
    assert_eq!(arith(ArithOp::Mul, &l, &r, &host), Ok(Object::Float(s("3"))));
    host.answer(Request::Arith(ArithOp::Lt, s("1.5"), s("2")), Reply::Float(s("3")));
    assert_eq!(arith(ArithOp::Lt, &l, &r, &host), Err(EvalError::BadReply));
    assert_eq!(
        arith(ArithOp::Add, &Object::Str(s("a")), &r, &host),
        Err(EvalError::NotANumber(s("Str")))
    );
}

#[test]
fn operand_errors() {
    let mut env = Env::new();
    assert_eq!(run("(+ 1 \"a\")", &mut env), Err(EvalError::NotANumber(s("Str"))));
    assert_eq!(run("(+ (< 1 2) 1)", &mut env), Err(EvalError::NotANumber(s("Bool"))));
    assert_eq!(run("(+ true 1)", &mut env), Err(EvalError::NotANumber(s("Keyword"))));
    assert_eq!(run("(+ 1)", &mut env), Err(EvalError::Arity(s("+"))));
    assert_eq!(run("(concat 1 ())", &mut env), Err(EvalError::NotText(s("Void"))));
}

#[test]
fn concat_turns_scalars_into_text() {
    let mut env = Env::new();
    assert_eq!(run("(concat 1 (< 1 2))", &mut env), Ok(Object::Str(s("1true"))));
    assert_eq!(run("(concat \"x\" 2.50)", &mut env), Ok(Object::Str(s("x2.5"))));
    assert_eq!(
        concat_vals(&Object::Str(s("día ")), &Object::Str(s("ñ🚬"))),
        Ok(Object::Str(s("día ñ🚬")))
    );
}

#[test]
fn form_shape_errors() {
    let mut env = Env::new();
    assert_eq!(run("(if 1 2 3)", &mut env), Err(EvalError::ConditionNotBool));
    assert_eq!(run("(if true 2)", &mut env), Err(EvalError::Arity(s("if"))));
    assert_eq!(run("(define 1 2)", &mut env), Err(EvalError::BadDefine));
    assert_eq!(run("(lambda x (x))", &mut env), Err(EvalError::BadLambda));
    assert_eq!(run("(lambda (1) (x))", &mut env), Err(EvalError::BadParameter));
    assert_eq!(run("(lambda (x))", &mut env), Err(EvalError::Arity(s("lambda"))));
    assert_eq!(run("(print)", &mut env), Err(EvalError::Arity(s("print"))));
    assert_eq!(run("(load 5)", &mut env), Err(EvalError::BadLoadArgument));
}

#[test]
fn if_picks_one_branch() {
    let mut env = Env::new();
    assert_eq!(run("(if true 1 2)", &mut env), Err(EvalError::ConditionNotBool));
    assert_eq!(run("(if (< 1 2) 10 undefined)", &mut env), Ok(Object::Integer(10)));
    assert_eq!(run("(if (> 1 2) undefined 20)", &mut env), Ok(Object::Integer(20)));
}

#[test]
fn lambda_values_and_arity() {
    let mut env = Env::new();
    assert_eq!(
        run("(lambda (a b) (a))", &mut env),
        Ok(Object::Lambda(vec![s("a"), s("b")], vec![Object::Symbol(s("a"))]))
    );
    assert_eq!(
        run("((define f (lambda (a b) (+ a b))) (f 1))", &mut env),
        Err(EvalError::Arity(s("f")))
    );
}

#[test]
fn calling_a_scalar_prints_it() {
    let out = printed("((define x \"hi\") (define n 5) (x) (n))");
    assert_eq!(out, vec![s("hi"), s("5")]);
    let mut env = Env::new();
    assert_eq!(
        run("((define k (1 2)) (k))", &mut env),
        Err(EvalError::NotCallable(s("k")))
    );
}

#[test]
fn printing_nothing_is_an_error() {
    let mut env = Env::new();
    let mut host = Host::new();
    let form = Object::List(vec![Object::Keyword(s("print")), Object::Void]);
    assert_eq!(eval_obj(&form, &mut env, &mut host, 10), Err(EvalError::BadPrint));
    assert_eq!(eval_obj(&form, &mut env, &mut host, 0), Err(EvalError::TooDeep));
}

#[test]
fn messages() {
    assert_eq!(EvalError::Unbound(s("x")).message(), s("Unbound symbol: x"));
    assert_eq!(EvalError::DivisionByZero.message(), s("Division by zero"));
    assert_eq!(
        EvalError::Parse(lisp_rs::ParseError {
            kind: lisp_rs::ParseErrorKind::Lex(lisp_rs::TokenError { ch: ')' })
        })
        .message(),
        s("Parse error: expected character: )")
    );
}

#[test]
fn result_lines() {
    assert_eq!(show(&Object::Void), Vec::<String>::new());
    assert_eq!(show(&Object::Integer(3)), vec![s("3")]);
    assert_eq!(
        show(&Object::List(vec![Object::Integer(1), Object::Str(s("a"))])),
        vec![s("1, a")]
    );
    assert_eq!(
        show(&Object::Lambda(vec![s("r")], vec![Object::Symbol(s("r"))])),
        vec![s("Lambda("), s("r "), s(")"), s(" r")]
    );
}

#[test]
fn print_writes_lines() {
    assert_eq!(printed("(print 5)"), vec![s("Int: 5")]);
    assert_eq!(printed("(print \"a b\")"), vec![s("Str: a b")]);
    assert_eq!(printed("(print 2.50)"), vec![s("Float: 2.5")]);
    assert_eq!(printed("(print if)"), vec![s("Conditional if")]);
    assert_eq!(printed("(print true)"), vec![s("")]);
    assert_eq!(
        printed("((define x 5) (print x))"),
        vec![s("Type: Integer, Var x: 5")]
    );
    assert_eq!(printed("(print (1 2 (3)))"), vec![s("(1 2 (3))")]);
    assert_eq!(get_doc(s("load")), s("Load a file"));
    assert_eq!(get_doc(s("true")), s(""));
}

#[test]
fn text_of_values() {
    let l = Object::Lambda(vec![s("a")], vec![Object::Symbol(s("a")), Object::Integer(-2)]);
    assert_eq!(l.to_text(), s("Lambda(a )a-2"));
    assert_eq!(Object::Keyword(s("if")).to_text(), s("Keyword: if"));
    assert_eq!(Object::Void.to_text(), s("Void"));
    assert_eq!(Object::Integer(i64::MIN).to_text(), s("-9223372036854775808"));
    assert_eq!(Object::Void.get_type(), s("Void"));
}

#[test]
fn values_equal_is_deep() {
    let a = Object::List(vec![Object::Integer(1), Object::Float(s("0"))]);
    let b = Object::List(vec![Object::Integer(1), Object::Float(s("-0"))]);
    assert!(values_equal(&a, &b));
    assert!(!values_equal(&Object::Float(s("NaN")), &Object::Float(s("NaN"))));
    assert!(!values_equal(&a, &Object::List(vec![Object::Integer(1)])));
}

#[test]
fn load_reads_a_module_into_the_current_frame() {
    let mut env = Env::new();
    let modules = [("lib.lisp", "((define z 7))")];
    let (r, _) = run_in("((load \"lib\") (+ z 1))", &mut env, &modules);
    assert_eq!(r, Ok(Object::List(vec![Object::List(vec![]), Object::Integer(8)])));
    assert_eq!(env.get("z"), Some(Object::Integer(7)));
    let (r, _) = run_in("(load \"lib.txt\")", &mut env, &modules);
    assert_eq!(r, Err(EvalError::BadExtension(s("txt"))));
    let (r, _) = run_in("(load \"other\")", &mut env, &modules);
    assert_eq!(r, Err(EvalError::ModuleNotFound(s("other.lisp"))));
}

#[test]
fn module_file_names() {
    assert_eq!(module_file(&s("a.cl")), Ok(s("a.cl")));
    assert_eq!(module_file(&s("a")), Ok(s("a.lisp")));
    assert_eq!(module_file(&s("a.b.lisp")), Ok(s("a.b.lisp")));
    assert_eq!(module_file(&s("a.rs")), Err(EvalError::BadExtension(s("rs"))));
}

#[test]
fn evaluation_asks_for_what_it_lacks() {
    let mut env = Env::new();
    let mut host = Host::new();
    assert_eq!(
        eval("(+ 1.5 1)", &mut env, &mut host),
        Err(EvalError::Needs(Request::Float(s("1.5"))))
    );
    host.answer(Request::Float(s("x")), Reply::Missing);
    assert_eq!(
        eval_obj(&Object::Float(s("x")), &mut env, &mut host, 10),
        Err(EvalError::BadFloat(s("x")))
    );
}

#[test]
fn deep_recursion_stops() {
    let mut env = Env::new();
    assert_eq!(
        run("((define f (lambda (n) (f n))) (f 1))", &mut env),
        Err(EvalError::TooDeep)
    );
}

#[test]
fn parse_errors_come_back() {
    let mut env = Env::new();
    assert!(matches!(run("(+ 1 2", &mut env), Err(EvalError::Parse(_))));
}

#[test]
fn child_scopes() {
    let mut parent = Env::new();
    parent.set("a", Object::Integer(1));
    let mut child = Env::child(parent);
    assert_eq!(child.get("a"), Some(Object::Integer(1)));
    child.set("a", Object::Integer(2));
    assert_eq!(child.get("a"), Some(Object::Integer(2)));
    assert_eq!(child.get("b"), None);
}

#[test]
fn attempt_leaves_the_frames_alone_until_done() {
    let mut env = Env::new();
    let mut host = Host::new();
    let program = "((define a 1) (define b 2.5))";
    assert_eq!(
        attempt(program, &mut env, &mut host),
        Step::Ask(Request::Float(s("2.5")))
    );
    assert_eq!(env.get("a"), None);
    host.answer(Request::Float(s("2.5")), Reply::Float(s("2.5")));
    assert_eq!(
        attempt(program, &mut env, &mut host),
        Step::Done(Ok(Object::List(vec![])))
    );
    assert_eq!(env.get("a"), Some(Object::Integer(1)));
    assert_eq!(env.get("b"), Some(Object::Float(s("2.5"))));
}

use rlci::ast::Expr;
use rlci::{parse, read_stdlib, Error, Frame, GlobalScope, Session, Value};

fn prepared() -> Session {
    let mut session = Session::new();
    session.eval_module(&parse("id = λx x").unwrap()).unwrap();
    session.eval_module(&parse("A = λa a").unwrap()).unwrap();
    session.eval_module(&parse("B = λb b").unwrap()).unwrap();
    session
}

fn run(session: &mut Session, input: &str) -> Result<Value, Error> {
    session.eval_module(&parse(input).unwrap())
}

fn shown(input: &str) -> String {
    let mut session = prepared();
    run(&mut session, input).unwrap().repr()
}

fn expr_of(input: &str) -> Expr {
    match parse(input).unwrap().stmts.remove(0) {
        rlci::Stmt::Expr { expr } => expr,
        rlci::Stmt::Assign { .. } => panic!("expected an expression"),
    }
}

#[test]
fn eval_module_id() {
    assert_eq!(shown("id"), "λx x");
}

#[test]
fn eval_module_assign() {
    assert_eq!(shown(r"c = \a a a"), "λa a a");
}

#[test]
fn eval_module_def() {
    assert_eq!(shown(r"\a id a"), "λa id a");
}

#[test]
fn eval_module_call() {
    assert_eq!(shown("id A"), "λa a");
}

#[test]
fn eval_module_call_b() {
    assert_eq!(shown("id B"), "λb b");
}

#[test]
fn eval_module_call_two_args() {
    assert_eq!(shown("id A B"), "λb b");
}

#[test]
fn eval_module_call_grouped_left() {
    assert_eq!(shown("(id A) B"), "λb b");
}

#[test]
fn eval_module_call_grouped_right() {
    assert_eq!(shown("id (A B)"), "λb b");
}

#[test]
fn eval_module_left() {
    assert_eq!(shown(r"(\a \b a) A B"), "λa a");
}

#[test]
fn eval_module_right() {
    assert_eq!(shown(r"(\a \b b) A B"), "λb b");
}

#[test]
fn eval_module_shadow_two_args() {
    assert_eq!(shown(r"(\a \a a) A B"), "λb b");
}

#[test]
fn eval_module_shadow_inner_def() {
    assert_eq!(shown(r"(\a (\a a) (\x a)) A"), "λx A");
}

#[test]
fn eval_module_shadow_inner_def_two_args() {
    assert_eq!(shown(r"(\a (\a a) (\x a)) A B"), "λa a");
}

#[test]
fn eval_module_shadow_one_arg() {
    assert_eq!(shown(r"(\a \a a) A"), "λa a");
}

#[test]
fn parse_and_repr_id() {
    assert_eq!(Value::from_expr(&expr_of("id")).repr(), "id");
}

#[test]
fn parse_and_repr_def() {
    assert_eq!(Value::from_expr(&expr_of(r"\x x")).repr(), "λx x");
}

#[test]
fn parse_and_repr_two_params() {
    assert_eq!(Value::from_expr(&expr_of(r"\a \b a b")).repr(), "λa λb a b");
}

#[test]
fn parse_and_repr_def_target() {
    assert_eq!(Value::from_expr(&expr_of(r"\a \b (\c c) b")).repr(), "λa λb (λc c) b");
}

#[test]
fn parse_and_repr_call_arg() {
    assert_eq!(Value::from_expr(&expr_of(r"\a \b a (b a)")).repr(), "λa λb a (b a)");
}

#[test]
fn parse_and_repr_chain() {
    assert_eq!(Value::from_expr(&expr_of(r"\a \b a b a")).repr(), "λa λb a b a");
}

#[test]
fn parse_and_repr_grouped_chain() {
    assert_eq!(Value::from_expr(&expr_of(r"\a \b (a b) a")).repr(), "λa λb a b a");
}

#[test]
fn shadowed_parameter_is_not_substituted() {
    assert_eq!(shown("(λa (λa a)) id"), "λa a");
}

#[test]
fn reassignment_does_not_change_earlier_definition() {
    let mut session = prepared();
    run(&mut session, "a = λp λq p").unwrap();
    run(&mut session, "f = λy a").unwrap();
    let before = run(&mut session, "f B").unwrap().repr();
    run(&mut session, "a = λp λq q").unwrap();
    let after = run(&mut session, "f B").unwrap().repr();
    assert_eq!(before, "λp λq p");
    assert_eq!(after, before);
    assert_eq!(run(&mut session, "a").unwrap().repr(), "λp λq q");
}

#[test]
fn application_groups_to_the_left() {
    assert_eq!(shown("(λa (λb a)) A B"), "λa a");
    assert_eq!(shown("(λa (λb b)) A B"), "λb b");
}

#[test]
fn chained_call_through_global() {
    assert_eq!(shown("id A"), "λa a");
    assert_eq!(shown("id A B"), "λb b");
}

#[test]
fn bare_unknown_name_is_undefined() {
    let mut session = Session::new();
    let err = run(&mut session, "z").unwrap_err();
    match &err {
        Error::UndefinedGlobal { name } => assert_eq!(name, "z"),
        other => panic!("unexpected error {:?}", other),
    }
    assert_eq!(err.message(), "variable `z` is not defined");
}

#[test]
fn unbound_variable_is_reported_with_context() {
    let mut session = prepared();
    let err = run(&mut session, "id z").unwrap_err();
    assert_eq!(
        err.message(),
        "failure calling a function: failure executing x: unbound variable `z`"
    );
    match err {
        Error::EvaluationFailure { frame: Frame::CallingFunction, cause } => match *cause {
            Error::EvaluationFailure { frame: Frame::Executing { name }, cause } => {
                assert_eq!(name, "x");
                assert!(matches!(*cause, Error::UnboundVariable { ref name } if name == "z"));
            }
            other => panic!("unexpected cause {:?}", other),
        },
        other => panic!("unexpected error {:?}", other),
    }
}

#[test]
fn calling_an_unknown_function_fails() {
    let mut session = Session::new();
    let err = run(&mut session, "q (λx x)").unwrap_err();
    assert_eq!(err.message(), "failure calling a function: unbound variable `q`");
}

#[test]
fn budget_limits_nested_reductions() {
    let mut session = Session::with_budget(0);
    run(&mut session, "id = λx x").unwrap();
    let err = run(&mut session, "id id").unwrap_err();
    assert_eq!(err.message(), "failure calling a function: reduction budget exhausted");
    let mut enough = Session::with_budget(1);
    run(&mut enough, "id = λx x").unwrap();
    assert_eq!(run(&mut enough, "id id").unwrap().repr(), "λx x");
}

#[test]
fn divergent_term_stops_at_the_budget() {
    let mut session = Session::with_budget(50);
    let err = run(&mut session, "(λx x x) (λx x x)").unwrap_err();
    assert!(err.message().ends_with("reduction budget exhausted"));
}

#[test]
fn result_is_kept_under_underscore() {
    let mut session = prepared();
    run(&mut session, "id A").unwrap();
    assert_eq!(session.scope().get("_").unwrap().repr(), "λa a");
    assert_eq!(run(&mut session, "_").unwrap().repr(), "λa a");
}

#[test]
fn assignment_is_lazy_and_shows_value() {
    let mut session = prepared();
    let v = run(&mut session, "k = id A").unwrap();
    assert_eq!(v.repr(), "id A");
    assert_eq!(run(&mut session, "k").unwrap().repr(), "id A");
    assert_eq!(run(&mut session, "k B").unwrap().repr(), "λb b");
}

#[test]
fn failure_keeps_earlier_assignments() {
    let mut session = Session::new();
    assert!(run(&mut session, "t = λa λb a\nnope\nu = λa a").is_err());
    assert!(session.scope().get("t").is_some());
    assert!(session.scope().get("u").is_none());
}

#[test]
fn module_result_is_last_statement() {
    let mut session = Session::new();
    let v = run(&mut session, "t = λa λb a\nf = λa λb b\nt f t").unwrap();
    assert_eq!(v.repr(), "λa λb b");
}

#[test]
fn bind_global_twice_equals_once() {
    let session = prepared();
    let v = Value::from_expr(&expr_of("λq id (q A) z"));
    let once = v.bind_global(session.scope());
    let twice = once.bind_global(session.scope());
    assert_eq!(format!("{:?}", once), format!("{:?}", twice));
    assert_eq!(once.repr(), "λq id (q A) z");
}

#[test]
fn bind_global_resolves_only_known_names() {
    let session = prepared();
    let v = Value::from_expr(&expr_of("id z"));
    match v.bind_global(session.scope()) {
        Value::Call { target, arg } => {
            assert!(matches!(*target, Value::BoundId { global: true, .. }));
            assert!(matches!(*arg, Value::Id { .. }));
        }
        other => panic!("unexpected value {:?}", other),
    }
}

#[test]
fn local_binding_renders_by_value() {
    let mut session = Session::new();
    run(&mut session, "true = λa λb a").unwrap();
    assert_eq!(run(&mut session, "(λa λb a) true").unwrap().repr(), "λb true");
}

#[test]
fn repr_wraps_definition_targets_and_spaced_arguments() {
    let v = Value::from_expr(&expr_of("(λa a) (f g)"));
    assert_eq!(v.repr(), "(λa a) (f g)");
    let w = Value::from_expr(&expr_of("f (λa a) g"));
    assert_eq!(w.repr(), "(f (λa a)) g");
}

#[test]
fn scope_set_overwrites_and_returns_stored() {
    let mut scope = GlobalScope::new();
    assert!(scope.get("a").is_none());
    let stored = scope.set("a", Value::from_expr(&expr_of("λx x"))).repr();
    assert_eq!(stored, "λx x");
    scope.set("a", Value::from_expr(&expr_of("λy y")));
    assert_eq!(scope.get("a").unwrap().repr(), "λy y");
}

const BOOLEANS: &str = "true = λa λb a\nfalse = λa λb b\nnot = λp p false true\nand = λp λq p q p\nor = λp λq p p q";

#[test]
fn library_modules_load_in_order() {
    let sources = vec![BOOLEANS.to_string(), "both = and true".to_string()];
    let modules = read_stdlib(&sources).unwrap();
    let mut session = Session::new();
    session.load_stdlib(&modules).unwrap();
    assert_eq!(run(&mut session, "not true").unwrap().repr(), "λa λb b");
    assert_eq!(run(&mut session, "not false").unwrap().repr(), "λa λb a");
    assert_eq!(run(&mut session, "and true false").unwrap().repr(), "λa λb b");
    assert_eq!(run(&mut session, "or false true").unwrap().repr(), "λa λb a");
    assert_eq!(run(&mut session, "both true").unwrap().repr(), "λa λb a");
}

#[test]
fn library_load_names_failing_module() {
    let sources = vec![BOOLEANS.to_string(), "x".to_string(), "y = λa a".to_string()];
    let modules = read_stdlib(&sources).unwrap();
    let mut session = Session::new();
    let err = session.load_stdlib(&modules).unwrap_err();
    assert_eq!(err.module, 1);
    assert!(matches!(err.cause, Error::UndefinedGlobal { .. }));
    assert!(session.scope().get("y").is_none());
}

#[test]
fn library_read_names_failing_source() {
    let sources = vec![BOOLEANS.to_string(), "(a)".to_string()];
    let err = read_stdlib(&sources).unwrap_err();
    assert_eq!(err.source, 1);
}

fn round_trip(input: &str) {
    let session = prepared();
    let tree = expr_of(input);
    let text = Value::from_expr(&tree).bind_global(session.scope()).repr();
    let again = parse(&text).unwrap();
    assert_eq!(again.stmts.len(), 1);
    assert_eq!(again.stmts[0], rlci::Stmt::Expr { expr: tree });
}

#[test]
fn rendered_text_reads_back_as_the_same_tree() {
    round_trip("id");
    round_trip("id A B");
    round_trip("λf (λx f (x x)) (λx f (x x))");
    round_trip("(λa a) (id A) z");
    round_trip("f (g (λa a)) ((λb b) B)");
    round_trip(r"\a \b (a b) (\c c)");
}

#[test]
fn rendered_text_of_grouped_call_target() {
    let tree = expr_of("(f (λa a)) g");
    let text = Value::from_expr(&tree).repr();
    assert_eq!(text, "(f (λa a)) g");
    assert_eq!(parse(&text).unwrap().stmts[0], rlci::Stmt::Expr { expr: tree });
}

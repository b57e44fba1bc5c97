use rlci::{parse, Expression, LangParser, Stmt};

fn shape(input: &str) -> String {
    let module = parse(input).unwrap();
    assert_eq!(module.stmts.len(), 1);
    module.stmts[0].short_repr()
}

#[test]
fn smoke_parse_stmt_ok_id() {
    assert_eq!(shape("id"), "id");
}

#[test]
fn smoke_parse_stmt_ok_space_before() {
    assert_eq!(shape("  id"), "id");
}

#[test]
fn smoke_parse_stmt_ok_space_after() {
    assert_eq!(shape("id  "), "id");
}

#[test]
fn smoke_parse_stmt_ok_call() {
    assert_eq!(shape("id x"), "call(id, id)");
}

#[test]
fn smoke_parse_stmt_ok_def_backslash() {
    assert_eq!(shape(r"\x x"), "def(id)");
}

#[test]
fn smoke_parse_stmt_ok_def_lambda() {
    assert_eq!(shape("λx x"), "def(id)");
}

#[test]
fn smoke_parse_stmt_ok_assign() {
    assert_eq!(shape(r"id = \x x"), "let(def(id))");
}

#[test]
fn smoke_parse_stmt_ok_assign_group() {
    assert_eq!(shape(r"id = (\x x)"), "let(def(id))");
}

#[test]
fn smoke_parse_stmt_ok_assign_punct_name() {
    assert_eq!(shape(r"& = \a a"), "let(def(id))");
}

#[test]
fn smoke_parse_stmt_ok_assign_no_space_before_eq() {
    assert_eq!(shape(r"id= \x x"), "let(def(id))");
}

#[test]
fn smoke_parse_stmt_ok_assign_no_space_after_eq() {
    assert_eq!(shape(r"id =\x x"), "let(def(id))");
}

#[test]
fn smoke_parse_stmt_ok_assign_no_spaces() {
    assert_eq!(shape(r"id=\x x"), "let(def(id))");
}

#[test]
fn smoke_parse_stmt_ok_call_chain() {
    assert_eq!(shape("id a b"), "call(call(id, id), id)");
}

#[test]
fn smoke_parse_stmt_ok_nested_defs() {
    assert_eq!(shape(r"id = \a \b x"), "let(def(def(id)))");
}

#[test]
fn smoke_parse_stmt_ok_self_apply() {
    assert_eq!(shape(r"apply = \f f f"), "let(def(call(id, id)))");
}

#[test]
fn smoke_parse_stmt_ok_group_on_right() {
    assert_eq!(shape(r"x = \f a (b c)"), "let(def(call(id, call(id, id))))");
}

#[test]
fn smoke_parse_stmt_ok_group_on_left() {
    assert_eq!(shape(r"x = \f (a b) c"), "let(def(call(call(id, id), id)))");
}

#[test]
fn smoke_parse_stmt_ok_def_as_target() {
    assert_eq!(shape(r"x = \f (\x x) c"), "let(def(call(def(id), id)))");
}

#[test]
fn smoke_parse_stmt_ok_def_body_def() {
    assert_eq!(shape(r"x = \f \x x"), "let(def(def(id)))");
}

#[test]
fn smoke_parse_stmt_ok_def_body_group() {
    assert_eq!(shape(r"x = \f (\x x)"), "let(def(def(id)))");
}

#[test]
fn smoke_parse_stmt_ok_call_punct() {
    assert_eq!(shape("+ a b"), "call(call(id, id), id)");
}

#[test]
fn smoke_parse_stmt_ok_assign_punct() {
    assert_eq!(shape(r"+ = \a \b a b"), "let(def(def(call(id, id))))");
}

#[test]
fn smoke_parse_stmt_ok_assign_call_punct() {
    assert_eq!(shape(r"add = \a \b + a b"), "let(def(def(call(call(id, id), id))))");
}

#[test]
fn smoke_parse_stmt_ok_alias() {
    assert_eq!(shape("add = +"), "let(id)");
}

#[test]
fn smoke_parse_stmt_err_empty() {
    assert!(parse("").is_err());
}

#[test]
fn smoke_parse_stmt_err_def_without_body() {
    assert!(parse(r"\x").is_err());
}

#[test]
fn smoke_parse_stmt_err_call_of_bare_def() {
    assert!(parse(r"a \x").is_err());
}

#[test]
fn smoke_parse_stmt_err_assign_without_expr() {
    assert!(parse("id = ").is_err());
}

#[test]
fn smoke_parse_stmt_err_assign_def_without_body() {
    assert!(parse(r"id = \x").is_err());
}

#[test]
fn smoke_parse_stmt_err_group_of_name() {
    assert!(parse("(a)").is_err());
}

#[test]
fn smoke_parse_stmt_err_nested_groups() {
    assert!(parse(r"(((\a a)))").is_err());
}

#[test]
fn smoke_parse_stmt_err_def_inside_call() {
    assert!(parse(r"\a a \b b a").is_err());
}

#[test]
fn parse_several_lines_with_comments() {
    let module = parse("# booleans\n\ntrue = \\a \\b a # first\nfalse = \\a \\b b\n\n").unwrap();
    assert_eq!(module.stmts.len(), 2);
    assert_eq!(module.stmts[0].short_repr(), "let(def(def(id)))");
    match &module.stmts[1] {
        Stmt::Assign { target, .. } => assert_eq!(target, "false"),
        Stmt::Expr { .. } => panic!("expected an assignment"),
    }
}

#[test]
fn parse_rejects_two_statements_on_one_line() {
    assert!(parse("a = b c = d").is_err());
}

#[test]
fn parse_only_line_ends_is_an_error() {
    assert!(parse("\n\n# nothing\n").is_err());
}

#[test]
fn tokenize_counts_tokens() {
    let toks = LangParser::tokenize("f = λx (x y) # note");
    assert_eq!(toks.len(), 8);
}

#[test]
fn flat_form_builders() {
    let id = Expression::make_id("x");
    assert_eq!(id, Expression::Id { name: "x".to_string() });
    let def = Expression::make_def(("x", Expression::make_id("x")));
    assert_eq!(
        def,
        Expression::Def { arg: "x".to_string(), expr: Box::new(Expression::make_id("x")) }
    );
    let call = Expression::make_call((Expression::make_id("f"), Expression::make_id("a")));
    assert_eq!(
        call,
        Expression::Call {
            target: Box::new(Expression::make_id("f")),
            arg: Box::new(Expression::make_id("a")),
        }
    );
    let assign = Expression::make_assign(("f", Expression::make_id("g")));
    assert_eq!(
        assign,
        Expression::Assign { target: "f".to_string(), expr: Box::new(Expression::make_id("g")) }
    );
}

#[test]
fn parse_error_message() {
    assert_eq!(parse("(a)").unwrap_err().message(), "invalid syntax");
}

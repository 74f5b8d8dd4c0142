use pizza_ml::Expr;
use pizza_ml::Function;
use pizza_ml::Statement;
use pizza_ml::parser::parse_expr;
use pizza_ml::translator::translate_expression;
use pizza_ml::translator::translate_expression_to_str;
use pizza_ml::translator::translate_function;
use pizza_ml::translator::translate_function_call;
use pizza_ml::translator::translate_function_to_str;
use pizza_ml::translator::translate_statement;

fn id(name: &str) -> Expr {
    Expr::Id(String::from(name))
}

#[test]
fn simple_block() {
    let e = parse_expr("{ e1; e2; e3 }").unwrap();
    let translated = translate_expression_to_str(&e);

    assert_eq!(translated, "let\nval _ = (e1);\nval _ = (e2);\nin e3\nend");
}

#[test]
fn function_fn_call() {
    let f = Function {
        name: String::from("foo"),
        argument_list: vec![(String::from("x"), String::from("Int"))],
        body: Expr::FnCall {
            function: String::from("bar"),
            args: vec![Expr::Unit, Expr::Unit, Expr::Unit],
        },
    };
    let ml_func = translate_function_to_str(&f);

    assert_eq!(&ml_func, "fun foo (x: Int) = bar () () ();");
}

#[test]
fn literals_render_as_their_text() {
    assert_eq!(translate_expression_to_str(&Expr::Unit), "()");
    assert_eq!(translate_expression_to_str(&Expr::BoolLit(true)), "true");
    assert_eq!(translate_expression_to_str(&Expr::BoolLit(false)), "false");
    assert_eq!(translate_expression_to_str(&Expr::IntLit(42)), "42");
    assert_eq!(translate_expression_to_str(&Expr::IntLit(0)), "0");
    assert_eq!(translate_expression_to_str(&id("x")), "x");
}

#[test]
fn negative_integers_render_with_sign() {
    assert_eq!(translate_expression_to_str(&Expr::IntLit(-5)), "-5");
    assert_eq!(
        translate_expression_to_str(&Expr::IntLit(i64::MIN)),
        "-9223372036854775808"
    );
    assert_eq!(
        translate_expression_to_str(&Expr::IntLit(i64::MAX)),
        "9223372036854775807"
    );
}

#[test]
fn string_literals_render_escaped() {
    assert_eq!(
        translate_expression_to_str(&Expr::StringLit(String::from("a\"b\n\t\r\\"))),
        "\"a\\\"b\\n\\t\\r\\\\\""
    );
    assert_eq!(translate_expression_to_str(&Expr::StringLit(String::new())), "\"\"");
}

#[test]
fn operators_render_verbatim_without_spaces() {
    let e = Expr::Op(Box::new(id("a")), String::from("+"), Box::new(id("b")));
    assert_eq!(translate_expression_to_str(&e), "a+b");
}

#[test]
fn if_renders_on_three_lines() {
    let e = parse_expr("if x { a } else { b }").unwrap();
    assert_eq!(translate_expression_to_str(&e), "if x\nthen\na\nelse\nb");
}

#[test]
fn block_without_trailing_expression_denotes_unit() {
    let e = parse_expr("{ a; }").unwrap();
    assert_eq!(translate_expression_to_str(&e), "let\nval _ = (a);\nin ()\nend");
    let empty = parse_expr("{}").unwrap();
    assert_eq!(translate_expression_to_str(&empty), "()");
}

#[test]
fn let_bindings_render_as_val() {
    let e = parse_expr("{ let x = a; x }").unwrap();
    assert_eq!(translate_expression_to_str(&e), "let\nval x = (a);\nin x\nend");
}

#[test]
fn statements_render_with_their_semicolon_and_newline() {
    let mut out = String::new();
    translate_statement(&Statement::SLet(String::from("x"), Expr::IntLit(1)), &mut out);
    translate_statement(&Statement::SExpr(id("y")), &mut out);
    assert_eq!(out, "val x = (1);\nval _ = (y);\n");
}

#[test]
fn print_maps_to_the_target_output_routine() {
    assert_eq!(translate_function_call("print"), "TextIO.print");
    assert_eq!(translate_function_call("foo"), "foo");
    assert_eq!(translate_function_call("printx"), "printx");

    let e = Expr::FnCall { function: String::from("print"), args: vec![id("x")] };
    assert_eq!(translate_expression_to_str(&e), "TextIO.print x");
}

#[test]
fn translation_appends_to_the_sink() {
    let mut out = String::from("val r = ");
    translate_expression(&id("y"), &mut out);
    assert_eq!(out, "val r = y");

    let mut out2 = String::new();
    let f = Function {
        name: String::from("f"),
        argument_list: vec![],
        body: Expr::Unit,
    };
    translate_function(&f, &mut out2);
    assert_eq!(out2, "fun f () = ();");
}

#[test]
fn call_arguments_are_not_parenthesized() {
    let e = parse_expr("f(a+b, c)").unwrap();
    assert_eq!(translate_expression_to_str(&e), "f a+b c");
}

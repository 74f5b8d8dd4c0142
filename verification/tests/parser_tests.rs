use pizza_ml::Expr;
use pizza_ml::ParseError;
use pizza_ml::ParseErrorKind;
use pizza_ml::Statement;
use pizza_ml::Function;
use pizza_ml::parser::parse_expr;
use pizza_ml::parser::parse_function;
use pizza_ml::parser::parse_statement;

fn id(name: &str) -> Expr {
    Expr::Id(String::from(name))
}

#[test]
fn bool_lit() {
    assert_eq!(parse_expr("true").unwrap(), Expr::BoolLit(true));
}

#[test]
fn expr_fn_call() {
    assert_eq!(
        parse_expr("add(x, y)"),
        Ok(Expr::FnCall {
            function: String::from("add"),
            args: vec![id("x"), id("y")],
        })
    );
}

#[test]
fn expr_block_empty() {
    assert_eq!(
        parse_expr("{}").unwrap(),
        Expr::Block(vec![], Some(Box::new(Expr::Unit)))
    );
}

#[test]
fn expr_block_with_terminal() {
    assert_eq!(
        parse_expr("{ e1; e2; e3 }"),
        Ok(Expr::Block(
            vec![
                Statement::SExpr(id("e1")),
                Statement::SExpr(id("e2")),
            ],
            Some(Box::new(id("e3"))),
        ))
    );
}

#[test]
fn expr_block_no_terminal() {
    assert_eq!(
        parse_expr("{ e1; e2; e3; }").unwrap(),
        Expr::Block(
            vec![
                Statement::SExpr(id("e1")),
                Statement::SExpr(id("e2")),
                Statement::SExpr(id("e3")),
            ],
            None,
        )
    );
}

#[test]
fn block_only_semicolon() {
    assert_eq!(parse_expr("{;}").unwrap(), Expr::Block(vec![], None));
}

#[test]
fn block_let_then_expression() {
    assert_eq!(
        parse_expr("{ let x = { a; b }; x }").unwrap(),
        Expr::Block(
            vec![Statement::SLet(
                String::from("x"),
                Expr::Block(
                    vec![Statement::SExpr(id("a"))],
                    Some(Box::new(id("b"))),
                ),
            )],
            Some(Box::new(id("x"))),
        )
    );
}

#[test]
fn block_trailing_let_with_semicolon_is_fine() {
    assert_eq!(
        parse_expr("{ let x = y; }").unwrap(),
        Expr::Block(
            vec![Statement::SLet(String::from("x"), id("y"))],
            None,
        )
    );
}

#[test]
fn block_ending_with_let_is_rejected() {
    assert_eq!(
        parse_expr("{ let x = y }"),
        Err(ParseError { kind: ParseErrorKind::BlockEndsWithLet, pos: 12 })
    );
}

#[test]
fn function_body_ending_with_let_is_rejected() {
    assert_eq!(
        parse_function("fn foo() { let x = y }"),
        Err(ParseError { kind: ParseErrorKind::BlockEndsWithLet, pos: 21 })
    );
}

#[test]
fn plus_associates_left() {
    assert_eq!(
        parse_expr("a+b+c").unwrap(),
        Expr::Op(
            Box::new(Expr::Op(Box::new(id("a")), String::from("+"), Box::new(id("b")))),
            String::from("+"),
            Box::new(id("c")),
        )
    );
}

#[test]
fn star_associates_left() {
    assert_eq!(
        parse_expr("a*b*c").unwrap(),
        Expr::Op(
            Box::new(Expr::Op(Box::new(id("a")), String::from("*"), Box::new(id("b")))),
            String::from("*"),
            Box::new(id("c")),
        )
    );
}

#[test]
fn star_binds_tighter_on_the_right() {
    assert_eq!(
        parse_expr("a+b*c").unwrap(),
        Expr::Op(
            Box::new(id("a")),
            String::from("+"),
            Box::new(Expr::Op(Box::new(id("b")), String::from("*"), Box::new(id("c")))),
        )
    );
}

#[test]
fn star_binds_tighter_on_the_left() {
    assert_eq!(
        parse_expr("a*b+c").unwrap(),
        Expr::Op(
            Box::new(Expr::Op(Box::new(id("a")), String::from("*"), Box::new(id("b")))),
            String::from("+"),
            Box::new(id("c")),
        )
    );
}

#[test]
fn parse_is_deterministic() {
    let text = "fn foo(x: Int) { bar(x, 1+2*3); \"s\" }";
    assert_eq!(parse_function(text), parse_function(text));
    assert_eq!(parse_expr("{ a; b*c }"), parse_expr("{ a; b*c }"));
}

#[test]
fn int_literals() {
    assert_eq!(parse_expr("42").unwrap(), Expr::IntLit(42));
    assert_eq!(
        parse_expr("9223372036854775807").unwrap(),
        Expr::IntLit(9223372036854775807)
    );
}

#[test]
fn int_literal_overflow_is_a_lex_error() {
    assert_eq!(
        parse_expr("9223372036854775808"),
        Err(ParseError { kind: ParseErrorKind::Lex, pos: 0 })
    );
}

#[test]
fn string_literal_with_escapes() {
    assert_eq!(
        parse_expr("\"a\\n\\\"b\\\\\"").unwrap(),
        Expr::StringLit(String::from("a\n\"b\\"))
    );
}

#[test]
fn unterminated_string_is_a_lex_error() {
    assert_eq!(
        parse_expr("\"abc"),
        Err(ParseError { kind: ParseErrorKind::Lex, pos: 4 })
    );
}

#[test]
fn unknown_escape_is_a_lex_error() {
    assert_eq!(
        parse_expr("\"a\\q\""),
        Err(ParseError { kind: ParseErrorKind::Lex, pos: 2 })
    );
}

#[test]
fn unrecognized_character_is_a_lex_error() {
    assert_eq!(
        parse_expr("?"),
        Err(ParseError { kind: ParseErrorKind::Lex, pos: 0 })
    );
}

#[test]
fn unterminated_comment_is_a_lex_error() {
    assert_eq!(
        parse_expr("/* a"),
        Err(ParseError { kind: ParseErrorKind::Lex, pos: 0 })
    );
}

#[test]
fn comments_and_whitespace_are_skipped() {
    assert_eq!(
        parse_expr("a /* c */ + // x\n b").unwrap(),
        Expr::Op(Box::new(id("a")), String::from("+"), Box::new(id("b")))
    );
}

#[test]
fn empty_input_is_unexpected_end() {
    assert_eq!(
        parse_expr(""),
        Err(ParseError { kind: ParseErrorKind::UnexpectedEnd, pos: 0 })
    );
    assert_eq!(
        parse_expr("a+"),
        Err(ParseError { kind: ParseErrorKind::UnexpectedEnd, pos: 2 })
    );
}

#[test]
fn stray_token_is_unexpected() {
    assert_eq!(
        parse_expr(")"),
        Err(ParseError { kind: ParseErrorKind::UnexpectedToken, pos: 0 })
    );
}

#[test]
fn leftover_input_is_trailing_input() {
    assert_eq!(
        parse_expr("a b"),
        Err(ParseError { kind: ParseErrorKind::TrailingInput, pos: 2 })
    );
    // `-` is lexed as an operator but has no binding power, so the climb
    // stops in front of it.
    assert_eq!(
        parse_expr("a-b"),
        Err(ParseError { kind: ParseErrorKind::TrailingInput, pos: 1 })
    );
}

#[test]
fn call_falls_back_to_identifier() {
    // `f(;)` is no call, so the parse backtracks to the bare identifier and
    // the `(` is left over.
    assert_eq!(
        parse_expr("f(;)"),
        Err(ParseError { kind: ParseErrorKind::TrailingInput, pos: 1 })
    );
}

#[test]
fn call_with_trailing_comma_and_empty_call() {
    assert_eq!(
        parse_expr("f(a,)").unwrap(),
        Expr::FnCall { function: String::from("f"), args: vec![id("a")] }
    );
    assert_eq!(
        parse_expr("f()").unwrap(),
        Expr::FnCall { function: String::from("f"), args: vec![] }
    );
}

#[test]
fn keywords_are_not_identifiers() {
    assert_eq!(parse_expr("lettuce").unwrap(), id("lettuce"));
    assert_eq!(
        parse_expr("let"),
        Err(ParseError { kind: ParseErrorKind::UnexpectedToken, pos: 0 })
    );
}

#[test]
fn if_expression_parses() {
    assert_eq!(
        parse_expr("if x { a } else { b }").unwrap(),
        Expr::If(
            Box::new(id("x")),
            Box::new(Expr::Block(vec![], Some(Box::new(id("a"))))),
            Box::new(Expr::Block(vec![], Some(Box::new(id("b"))))),
        )
    );
}

#[test]
fn if_branch_must_be_a_block() {
    // The then-branch parses as `{ a } + b`, which is no block.
    assert_eq!(
        parse_expr("if x { a } + b else { c }"),
        Err(ParseError { kind: ParseErrorKind::IfBranchNotBlock, pos: 0 })
    );
    // Without braces after `else`, the required `{` is missing outright.
    assert_eq!(
        parse_expr("if x { a } else z"),
        Err(ParseError { kind: ParseErrorKind::UnexpectedToken, pos: 16 })
    );
}

#[test]
fn statements_parse() {
    assert_eq!(
        parse_statement("let x = 5").unwrap(),
        Statement::SLet(String::from("x"), Expr::IntLit(5))
    );
    assert_eq!(
        parse_statement("f(x)").unwrap(),
        Statement::SExpr(Expr::FnCall { function: String::from("f"), args: vec![id("x")] })
    );
}

#[test]
fn function_definitions_parse() {
    assert_eq!(
        parse_function("fn foo(x: Int, y: Bool) { x }").unwrap(),
        Function {
            name: String::from("foo"),
            argument_list: vec![
                (String::from("x"), String::from("Int")),
                (String::from("y"), String::from("Bool")),
            ],
            body: Expr::Block(vec![], Some(Box::new(id("x")))),
        }
    );
    assert_eq!(
        parse_function("fn main() x").unwrap(),
        Function {
            name: String::from("main"),
            argument_list: vec![],
            body: id("x"),
        }
    );
}

#[test]
fn function_argument_list_allows_no_trailing_comma() {
    assert_eq!(
        parse_function("fn foo(x: Int,) { x }"),
        Err(ParseError { kind: ParseErrorKind::UnexpectedToken, pos: 14 })
    );
}

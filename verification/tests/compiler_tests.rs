use pizza_ml::ParseError;
use pizza_ml::ParseErrorKind;
use pizza_ml::compiler::parse_and_translate;

#[test]
fn whole_pipeline_renders_a_function() {
    assert_eq!(
        parse_and_translate("fn main() print(\"hi\")").unwrap(),
        "fun main () = TextIO.print \"hi\";"
    );
}

#[test]
fn whole_pipeline_renders_blocks_and_arguments() {
    assert_eq!(
        parse_and_translate("fn foo(x: Int) { bar(); baz }").unwrap(),
        "fun foo (x: Int) = let\nval _ = (bar);\nin baz\nend;"
    );
}

#[test]
fn pipeline_rejects_text_after_the_function() {
    assert_eq!(
        parse_and_translate("fn f() x y"),
        Err(ParseError { kind: ParseErrorKind::TrailingInput, pos: 9 })
    );
}

#[test]
fn pipeline_reports_parse_errors() {
    assert_eq!(
        parse_and_translate("fn f() { let x = y }"),
        Err(ParseError { kind: ParseErrorKind::BlockEndsWithLet, pos: 19 })
    );
    assert_eq!(
        parse_and_translate("foo"),
        Err(ParseError { kind: ParseErrorKind::UnexpectedToken, pos: 0 })
    );
}

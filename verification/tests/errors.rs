//! One input per reachable diagnostic: each malformed construct is
//! reported, recovered from, and never aborts the parse.

use langfront::lexer::Lexer;
use langfront::transpiler::test_cxx;
use langfront::Diagnostics;

fn messages(code: &str) -> Vec<&'static str> {
    let mut lexer = Lexer::new();
    let mut diag = Diagnostics::new();
    lexer.parse(code, &mut diag);
    diag.errors.iter().map(|m| m.message).collect()
}

#[test]
fn missing_equals_in_const() {
    assert_eq!(messages("const x 5"), vec!["Expected `=`"]);
}

#[test]
fn const_without_value() {
    assert_eq!(messages("const x"), vec!["Wrong Syntax"]);
}

#[test]
fn multiline_array_rejected() {
    assert_eq!(
        messages("const a = [ 1"),
        vec!["Creating a multiline Array with the let binding is not supported"],
    );
}

#[test]
fn include_without_path() {
    assert_eq!(messages("# include"), vec!["Expected `path`"]);
}

#[test]
fn unknown_directive() {
    assert_eq!(messages("# pragma"), vec!["Unimplemented directive"]);
}

#[test]
fn unexpected_top_level_token() {
    assert_eq!(messages("wat"), vec!["Unexpected token"]);
}

#[test]
fn bare_fn_keyword() {
    assert_eq!(messages("fn"), vec!["Expected function name and opening bracket"]);
}

#[test]
fn missing_bracket_after_name() {
    assert_eq!(messages("fn f x"), vec!["Expected opening bracket after function name"]);
}

#[test]
fn unterminated_argument_list() {
    assert_eq!(
        messages("fn f("),
        vec!["Expected argument `name`", "Expected opening braces"],
    );
}

#[test]
fn junk_after_argument_list() {
    assert_eq!(messages("fn f() x"), vec!["Expected opening braces or colon"]);
}

#[test]
fn unclosed_function_body() {
    let mut lexer = Lexer::new();
    let mut diag = Diagnostics::new();
    lexer.parse("fn f() {", &mut diag);
    assert_eq!(diag.errors.len(), 1);
    assert_eq!(diag.errors[0].message, "Unable to parse function");
    assert_eq!(diag.errors[0].line, 1);
    assert!(lexer.ast.is_empty());
}

#[test]
fn argument_without_colon() {
    assert_eq!(messages("fn f(a int) {\n}"), vec!["Expected `:`", "Expected `:`"]);
}

#[test]
fn argument_without_type() {
    assert_eq!(
        messages("fn f(a:, b: int) {\n}"),
        vec!["Expected argument `type`", "Expected `:`"],
    );
}

#[test]
fn nested_bracket_in_arguments() {
    assert_eq!(messages("fn f(a: int (b) {\n}"), vec!["Unexpected opening bracket"]);
}

#[test]
fn if_without_brace() {
    let mut lexer = Lexer::new();
    let mut diag = Diagnostics::new();
    lexer.parse("fn f() {\nif x\n}", &mut diag);
    assert_eq!(diag.errors.len(), 1);
    assert_eq!(diag.errors[0].message, "Expected `{`");
    // the malformed `if` sits on source line 2
    assert_eq!(diag.errors[0].line, 2);
}

#[test]
fn if_without_condition() {
    assert_eq!(messages("fn f() {\nif {\n}\n}"), vec!["Expected condition"]);
}

#[test]
fn else_without_brace_or_if() {
    assert_eq!(messages("fn f() {\nelse x\n}"), vec!["Expected `{` or `if`"]);
}

#[test]
fn for_without_in() {
    assert_eq!(messages("fn f() {\nfor x y {\n}\n}"), vec!["Expected `in`"]);
}

#[test]
fn for_without_variable() {
    assert_eq!(messages("fn f() {\nfor\n}"), vec!["Expected var_name"]);
}

#[test]
fn for_without_iterator() {
    assert_eq!(
        messages("fn f() {\nfor x in {\n}\n}"),
        vec!["Expected iterator or expression"],
    );
}

#[test]
fn yield_without_expression() {
    assert_eq!(messages("fn f() {\nyield\n}"), vec!["Expected expression after `yield`"]);
}

#[test]
fn return_without_expression() {
    assert_eq!(messages("fn f() {\nreturn\n}"), vec!["Expected expression after `return`"]);
}

#[test]
fn assignment_of_line_end_keeps_empty_atom() {
    // a line ending in `=` still carries the line's trailing empty
    // fragment, so the assignment gets an empty value atom rather than a
    // report
    assert_eq!(messages("fn f() {\nx =\n}"), Vec::<&str>::new());
    assert!(test_cxx("fn f() {\nx =\n}\n", "void f ()\n{\nx = ;\n}\n"));
}

#[test]
fn let_without_value() {
    assert_eq!(messages("fn f() {\nlet x\n}"), vec!["Wrong Syntax"]);
}

#[test]
fn statement_loop_without_brace() {
    assert_eq!(messages("fn f() {\nloop x\n}"), vec!["Expected `{`"]);
}

#[test]
fn else_chain_renders() {
    assert!(test_cxx(
        "fn f() {\nif a {\n} else if b {\n} else {\n}\n}\n",
        "void f ()\n{\nif (a)\n{\n}\nelse if (b)\n{\n}\nelse{\n}\n}\n",
    ));
}

#[test]
fn generic_run_gets_semicolon() {
    assert!(test_cxx(
        "fn f() {\nprint ( a , b )\n}\n",
        "void f ()\n{\nprint (a b );\n}\n",
    ));
}

//! Scenario checks for the parsing pipeline: the boundary case, the
//! documented single-construct inputs, the identity scheme, and the
//! deterministic re-run.

use langfront::lexer::token::expression::Operator;
use langfront::lexer::{generate_expression, Lexer, Token};
use langfront::transpiler::cxx;
use langfront::transpiler::transpile;
use langfront::Diagnostics;

#[test]
fn empty_input_reports_and_stays_empty() {
    let mut lexer = Lexer::new();
    let mut diag = Diagnostics::new();
    lexer.parse("", &mut diag);
    assert_eq!(diag.error_count(), 1);
    assert_eq!(diag.errors[0].message, "Please provide some code");
    assert!(lexer.tmp_ast.is_empty());
    assert!(lexer.ast.is_empty());
}

#[test]
fn const_binding_single_token() {
    let mut lexer = Lexer::new();
    let mut diag = Diagnostics::new();
    lexer.parse("const x = 5", &mut diag);
    assert_eq!(diag.error_count(), 0);
    assert_eq!(lexer.ast.len(), 1);
    match &lexer.ast[0] {
        Token::Const(l) => {
            assert_eq!(l.name, "x");
            assert_eq!(l.exp.len(), 1);
            assert!(matches!(&l.exp[0], Token::ExpVal(v) if v == "5"));
        }
        other => panic!("expected a Const token, got {:?}", other),
    }
}

#[test]
fn single_line_function_with_signature() {
    let mut lexer = Lexer::new();
    let mut diag = Diagnostics::new();
    lexer.parse("fn add(a: int, b: int): int { return a + b }", &mut diag);
    assert_eq!(diag.error_count(), 0);
    assert_eq!(lexer.ast.len(), 1);
    match &lexer.ast[0] {
        Token::Function(f) => {
            assert_eq!(f.name, "add");
            assert_eq!(f.return_type, "int");
            assert_eq!(f.arguments.len(), 2);
            assert_eq!(f.arguments[0].name, "a");
            assert_eq!(f.arguments[0].type_, "int");
            assert_eq!(f.arguments[1].name, "b");
            assert_eq!(f.arguments[1].type_, "int");
            assert_eq!(f.lines.len(), 1);
            assert_eq!(f.lines[0].tokens.len(), 1);
            match &f.lines[0].tokens[0] {
                Token::Return(exp) => {
                    assert_eq!(exp.len(), 3);
                    assert!(matches!(&exp[0], Token::ExpVal(v) if v == "a"));
                    assert!(matches!(&exp[1], Token::Operator(Operator::Plus)));
                    assert!(matches!(&exp[2], Token::ExpVal(v) if v == "b"));
                }
                other => panic!("expected a Return token, got {:?}", other),
            }
        }
        other => panic!("expected a Function token, got {:?}", other),
    }
}

#[test]
fn loop_function_empty_body_wraps_in_repeat() {
    let mut lexer = Lexer::new();
    let mut diag = Diagnostics::new();
    lexer.parse("loop fn tick() { }", &mut diag);
    assert_eq!(diag.error_count(), 0);
    assert_eq!(lexer.ast.len(), 1);
    match &lexer.ast[0] {
        Token::LoopFunction(f) => {
            assert_eq!(f.name, "tick");
            assert!(f.lines.is_empty());
        }
        other => panic!("expected a LoopFunction token, got {:?}", other),
    }
    let mut t = cxx::new();
    transpile(&mut t, lexer.ast);
    assert_eq!(t.buffer, "void tick ()\n{\ndo {\n} while (1);\n}\n");
}

#[test]
fn nested_if_end_levels_match() {
    // the block is written across lines: on a single line the assignment
    // would swallow the closing brace, as assignments take the rest of
    // the line
    let mut lexer = Lexer::new();
    let mut diag = Diagnostics::new();
    lexer.parse("fn f() {\nif x == 1 {\ny = 2\n}\n}", &mut diag);
    assert_eq!(diag.error_count(), 0);
    assert_eq!(lexer.ast.len(), 1);
    match &lexer.ast[0] {
        Token::Function(f) => {
            assert_eq!(f.lines.len(), 4);
            let if_tok = &f.lines[1].tokens[0];
            let assign_tok = &f.lines[2].tokens[0];
            let end_tok = &f.lines[3].tokens[0];
            assert!(matches!(assign_tok, Token::Assign(a) if a.var == "y"));
            match (if_tok, end_tok) {
                (Token::If(i), Token::End(e)) => {
                    assert_eq!(i.level, 1);
                    assert_eq!(e.level, i.level);
                    assert_eq!(e.id, i.id);
                }
                other => panic!("expected If and End tokens, got {:?}", other),
            }
        }
        other => panic!("expected a Function token, got {:?}", other),
    }
}

#[test]
fn missing_function_name_recovers_on_next_line() {
    let mut lexer = Lexer::new();
    let mut diag = Diagnostics::new();
    lexer.parse("fn (a: int) { }\nconst z = 9", &mut diag);
    assert_eq!(diag.error_count(), 1);
    assert_eq!(diag.errors[0].message, "Expected function name");
    assert_eq!(diag.errors[0].line, 1);
    assert_eq!(lexer.ast.len(), 1);
    assert!(matches!(&lexer.ast[0], Token::Const(l) if l.name == "z"));
}

#[test]
fn rerun_produces_identical_stream() {
    let code = "const c = 1\nfn f(p: int) {\nif p == 1 {\nq = 2\n}\nreturn p\n}\n";
    let mut first = Lexer::new();
    let mut d1 = Diagnostics::new();
    first.parse(code, &mut d1);
    let mut second = Lexer::new();
    let mut d2 = Diagnostics::new();
    second.parse(code, &mut d2);
    assert_eq!(d1.error_count(), d2.error_count());
    let mut t1 = cxx::new();
    transpile(&mut t1, first.ast);
    let mut t2 = cxx::new();
    transpile(&mut t2, second.ast);
    assert_eq!(t1.buffer, t2.buffer);
}

#[test]
fn random_ids_stay_in_range() {
    let mut lexer = Lexer::new();
    let mut diag = Diagnostics::new();
    lexer.parse_random("fn f() {\nif x {\ny = 1\n}\n}", &mut diag);
    match &lexer.ast[0] {
        Token::Function(f) => match &f.lines[1].tokens[0] {
            Token::If(i) => {
                assert_eq!(i.level, 1);
                assert!(i.id >= 1);
                assert!(i.id <= i32::MAX as i64 + 1);
            }
            other => panic!("expected an If token, got {:?}", other),
        },
        other => panic!("expected a Function token, got {:?}", other),
    }
}

#[test]
fn fragments_isolate_punctuation_and_collapse_spaces() {
    let mut lexer = Lexer::new();
    let mut diag = Diagnostics::new();
    lexer.generate_strings("a  b ( c//d", &mut diag);
    assert_eq!(diag.error_count(), 0);
    assert_eq!(lexer.strings.len(), 1);
    assert_eq!(lexer.strings[0], vec!["a", "b", "(", "c", "//", "d"]);
}

#[test]
fn empty_line_yields_one_empty_fragment() {
    let mut lexer = Lexer::new();
    let mut diag = Diagnostics::new();
    lexer.generate_strings("x\n\ny", &mut diag);
    assert_eq!(lexer.strings.len(), 3);
    assert_eq!(lexer.strings[0], vec!["x"]);
    assert_eq!(lexer.strings[1], vec![""]);
    assert_eq!(lexer.strings[2], vec!["y"]);
}

#[test]
fn operator_fragments_map_one_to_one() {
    let frags: Vec<String> = vec![
        "+", "-", "*", "/", "<<", ">>", "==", "|>", "|", "&", "||", "&&", "foo",
    ]
    .into_iter()
    .map(|s| s.to_string())
    .collect();
    let n = frags.len();
    let toks = generate_expression(&frags, 0, n, 1);
    assert_eq!(toks.len(), n);
    assert!(matches!(&toks[0], Token::Operator(Operator::Plus)));
    assert!(matches!(&toks[1], Token::Operator(Operator::Minus)));
    assert!(matches!(&toks[2], Token::Operator(Operator::Mul)));
    assert!(matches!(&toks[3], Token::Operator(Operator::Div)));
    assert!(matches!(&toks[4], Token::Operator(Operator::BitShiftLeft)));
    assert!(matches!(&toks[5], Token::Operator(Operator::BitShiftRight)));
    assert!(matches!(&toks[6], Token::Operator(Operator::Equals)));
    assert!(matches!(&toks[7], Token::Operator(Operator::Pipe)));
    assert!(matches!(&toks[8], Token::Operator(Operator::BitOr)));
    assert!(matches!(&toks[9], Token::Operator(Operator::BitAnd)));
    assert!(matches!(&toks[10], Token::Operator(Operator::Or)));
    assert!(matches!(&toks[11], Token::Operator(Operator::And)));
    assert!(matches!(&toks[12], Token::ExpVal(v) if v == "foo"));
}

#[test]
fn top_level_fills_provisional_list_only() {
    let mut lexer = Lexer::new();
    let mut diag = Diagnostics::new();
    lexer.top_level("const a = 1", &mut diag);
    assert_eq!(lexer.tmp_ast.len(), 1);
    assert!(matches!(&lexer.tmp_ast[0], Token::Const(l) if l.name == "a"));
    assert!(lexer.ast.is_empty());
}

#[test]
fn low_level_scans_a_raw_body() {
    let mut lexer = Lexer::new();
    let mut diag = Diagnostics::new();
    let body = vec![vec!["return".to_string(), "1".to_string()]];
    let lines = lexer.low_level(body, 1, 0, &mut diag);
    assert_eq!(diag.error_count(), 0);
    assert_eq!(lines.len(), 1);
    assert_eq!(lines[0].as_string, "return 1");
    assert!(matches!(&lines[0].tokens[0], Token::Return(e) if e.len() == 1));
}

#[test]
fn mismatched_expectation_is_rejected() {
    assert!(!langfront::transpiler::test_cxx("const x = 1\n", "auto x = 1;\n"));
}

#[test]
fn diagnostics_count_each_report() {
    let mut d = Diagnostics::new();
    assert_eq!(d.error_count(), 0);
    d.report(3, "stray bracket");
    assert_eq!(d.error_count(), 1);
    assert_eq!(d.errors[0].line, 3);
    assert_eq!(d.errors[0].message, "stray bracket");
    langfront::lexer_error(&mut d);
    assert_eq!(d.error_count(), 2);
}

#[test]
fn comments_and_includes_pass_through() {
    let mut lexer = Lexer::new();
    let mut diag = Diagnostics::new();
    lexer.parse("# include <stdio.h>\n// a note\n", &mut diag);
    assert_eq!(diag.error_count(), 0);
    assert_eq!(lexer.ast.len(), 2);
    assert!(matches!(&lexer.ast[0], Token::CImport(p) if p == "<stdio.h>"));
    // the comment keeps the text after its marker
    assert!(matches!(&lexer.ast[1], Token::Comment(c) if c == "a note"));
}

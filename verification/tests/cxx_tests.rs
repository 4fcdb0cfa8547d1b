//! End-to-end checks: each runs the whole pipeline on a small program and
//! compares the generated C++ against the expected text.

use langfront::lexer::Lexer;
use langfront::transpiler::cxx;
use langfront::transpiler::{test_cxx, transpile};
use langfront::Diagnostics;

#[test]
fn expression() {
    assert!(test_cxx("const x = 1 + 2\n", "const auto x = 1+2;\n"));
}

#[test]
fn global_const() {
    assert!(test_cxx(
        "const a = 5\nglobal b = a * 2\n",
        "const auto a = 5;\nauto b = a*2;\n",
    ));
}

#[test]
fn global_let() {
    assert!(test_cxx(
        "global g = 1\nfn main() {\nlet y = g + 1\n}\n",
        "auto g = 1;\nvoid main ()\n{\nauto y = g+1;\n}\n",
    ));
}

#[test]
fn if_() {
    assert!(test_cxx(
        "fn f() {\nif x == 1 {\ny = 2\n}\n}\n",
        "void f ()\n{\nif (x==1)\n{\ny = 2;\n}\n}\n",
    ));
}

#[test]
fn let_() {
    assert!(test_cxx(
        "fn f() {\nlet a = 3\nreturn a\n}\n",
        "void f ()\n{\nauto a = 3;\nreturn a;\n}\n",
    ));
}

#[test]
fn loop_function() {
    assert!(test_cxx(
        "loop fn tick() {\n}\n",
        "void tick ()\n{\ndo {\n} while (1);\n}\n",
    ));
}

#[test]
fn function() {
    assert!(test_cxx(
        "fn main() {\nreturn 0\n}\n",
        "void main ()\n{\nreturn 0;\n}\n",
    ));
}

#[test]
fn generator() {
    assert!(test_cxx(
        "gen fn nums(): int {\nyield 1\nyield 2\n}\n",
        "#include <vector>\n\nstd::vector<int> nums ()\n{\nstd::vector<int> dfjfjfdjfndjfnjd;\ndfjfjfdjfndjfnjd.push_back(1);\ndfjfjfdjfndjfnjd.push_back(2);\nreturn dfjfjfdjfndjfnjd;\n}\n",
    ));
}

#[test]
fn cxx_testing() {
    let mut lexer = Lexer::new();
    let mut diag = Diagnostics::new();
    lexer.parse("const k = 7\nfn main() {\nreturn k\n}\n", &mut diag);
    assert_eq!(diag.error_count(), 0);
    let mut t = cxx::new();
    transpile(&mut t, lexer.ast);
    assert_eq!(t.buffer, "const auto k = 7;\nvoid main ()\n{\nreturn k;\n}\n");
}

#[test]
fn fn_cxx() {
    let mut lexer = Lexer::new();
    let mut diag = Diagnostics::new();
    lexer.parse("gen fn range(n: int): int {\nyield n\n}\n", &mut diag);
    assert_eq!(diag.error_count(), 0);
    let mut t = cxx::new();
    transpile(&mut t, lexer.ast);
    assert_eq!(
        t.buffer,
        "#include <vector>\n\nstd::vector<int> range (int n)\n{\nstd::vector<int> dfjfjfdjfndjfnjd;\ndfjfjfdjfndjfnjd.push_back(n);\nreturn dfjfjfdjfndjfnjd;\n}\n",
    );
}

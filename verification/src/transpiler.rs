//! The code generator: walk the finalized token stream once, in order, and
//! render it as C++ source text. Its meaning is the pure text functions
//! below; each emitter's contract is an equation against them.

use vstd::prelude::*;

use crate::lexer::model::{
    lemma_tokens_view, token_view, tokens_view, ArgV, FunV, LineV, TokV,
};
use crate::lexer::token::expression::Operator;
use crate::lexer::token::{Expression, Function};
use crate::lexer::{FunctionType, Token};
use crate::strutil::range_contains;

pub mod cxx;

verus! {

/// The output languages the generator can render.
#[derive(Clone, Copy, Debug, PartialEq, Eq, Structural)]
pub enum TranspilerLang {
    Cxx,
}

/// The generator state: the output buffer and the include lines already
/// emitted (each remembered once).
#[derive(Clone, Debug)]
pub struct Transpiler {
    pub buffer: String,
    pub imports: Vec<String>,
    pub target_lang: TranspilerLang,
}

// ---------------------------------------------------------------------
// The meaning of the generated text
// ---------------------------------------------------------------------
/// The text of one operator tag. The pipe operator renders as nothing:
/// the target language has no counterpart for it yet.
pub open spec fn op_str(o: Operator) -> Seq<char> {
    match o {
        Operator::Plus => "+"@,
        Operator::Minus => "-"@,
        Operator::Mul => "*"@,
        Operator::Div => "/"@,
        Operator::BitShiftLeft => "<<"@,
        Operator::BitShiftRight => ">>"@,
        Operator::Equals => "=="@,
        Operator::And => "&&"@,
        Operator::Or => "||"@,
        Operator::BitAnd => "&"@,
        Operator::BitOr => "|"@,
        Operator::Pipe => Seq::empty(),
    }
}

/// A flat expression as text: operator tags and value atoms in order,
/// nothing between them; any other token renders as nothing.
pub open spec fn exp_str(e: Seq<TokV>) -> Seq<char>
    decreases e.len(),
{
    if e.len() == 0 {
        Seq::empty()
    } else {
        exp_str(e.drop_last()) + (match e.last() {
            TokV::Operator(o) => op_str(o),
            TokV::ExpVal(s) => s,
            _ => Seq::empty(),
        })
    }
}

/// The text of one statement token inside a function body.
pub open spec fn stmt_str(t: TokV) -> Seq<char> {
    match t {
        TokV::If(x) => "if ("@ + exp_str(x.condition) + ")\n{\n"@,
        TokV::ElseIf(x) => "else if ("@ + exp_str(x.condition) + ")\n{\n"@,
        TokV::Assign(a) => a.var + " = "@ + exp_str(a.exp) + ";\n"@,
        TokV::Return(e) => "return "@ + exp_str(e) + ";\n"@,
        TokV::Yield(e) => "dfjfjfdjfndjfnjd.push_back("@ + exp_str(e) + ");\n"@,
        TokV::Var(l) => "auto "@ + l.name + " = "@ + exp_str(l.exp) + ";\n"@,
        TokV::End(_) => "}\n"@,
        TokV::Else(_) => "else{\n"@,
        TokV::Empty => "\n"@,
        TokV::Generic(s) => s + " "@,
        TokV::OpenRoBr(_) => "("@,
        TokV::CloseRoBr(_) => ")"@,
        _ => Seq::empty(),
    }
}

/// Whether the token leaves an open statement that wants a closing
/// semicolon at the end of the line.
pub open spec fn wants_semi(t: TokV) -> bool {
    match t {
        TokV::Generic(_) => true,
        TokV::OpenRoBr(_) => true,
        TokV::CloseRoBr(_) => true,
        _ => false,
    }
}

pub open spec fn toks_str(ts: Seq<TokV>) -> Seq<char>
    decreases ts.len(),
{
    if ts.len() == 0 {
        Seq::empty()
    } else {
        toks_str(ts.drop_last()) + stmt_str(ts.last())
    }
}

pub open spec fn any_semi(ts: Seq<TokV>) -> bool {
    exists|k: int| 0 <= k < ts.len() && wants_semi(ts[k])
}

/// The text of one finalized body line: its tokens in order, with a
/// semicolon line appended when any token left a statement open.
pub open spec fn line_str(l: LineV) -> Seq<char> {
    toks_str(l.tokens) + (if any_semi(l.tokens) {
        ";\n"@
    } else {
        Seq::empty()
    })
}

pub open spec fn lines_str(ls: Seq<LineV>) -> Seq<char>
    decreases ls.len(),
{
    if ls.len() == 0 {
        Seq::empty()
    } else {
        lines_str(ls.drop_last()) + line_str(ls.last())
    }
}

/// The declared arguments, `type name` pairs joined with `, `.
pub open spec fn args_str(args: Seq<ArgV>) -> Seq<char>
    decreases args.len(),
{
    if args.len() == 0 {
        Seq::empty()
    } else if args.len() == 1 {
        args[0].type_ + " "@ + args[0].name
    } else {
        args[0].type_ + " "@ + args[0].name + ", "@ + args_str(args.drop_first())
    }
}

/// A whole function: header, kind-specific prologue, body lines, and
/// kind-specific epilogue. A generator returns a vector of its yields; a
/// loop function wraps its body in an endless do-while.
pub open spec fn fun_str(f: FunV, kind: FunctionType) -> Seq<char> {
    let rt = if kind == FunctionType::Generator {
        "std::vector<"@ + f.return_type + ">"@
    } else {
        f.return_type
    };
    let header = rt + " "@ + f.name + " ("@ + args_str(f.arguments) + ")\n{\n"@;
    let prologue: Seq<char> = match kind {
        FunctionType::Loop => "do {\n"@,
        FunctionType::Generator => "std::vector<int> dfjfjfdjfndjfnjd;\n"@,
        FunctionType::Function => Seq::empty(),
    };
    let epilogue: Seq<char> = match kind {
        FunctionType::Loop => "} while (1);\n}\n"@,
        FunctionType::Function => "}\n"@,
        FunctionType::Generator => "return dfjfjfdjfndjfnjd;\n}\n"@,
    };
    header + prologue + lines_str(f.lines) + epilogue
}

/// One top-level token appended to the generator state `(buffer,
/// imports)`: bindings and functions emit text; an include is emitted and
/// remembered once; a generator function pulls in the vector include
/// first; comments and anything unrecognized emit nothing.
pub open spec fn tr_step(t: TokV, buf: Seq<char>, imps: Seq<Seq<char>>) -> (
    Seq<char>,
    Seq<Seq<char>>,
) {
    match t {
        TokV::Const(x) => (buf + "const auto "@ + x.name + " = "@ + exp_str(x.exp) + ";\n"@, imps),
        TokV::Global(x) => (buf + "auto "@ + x.name + " = "@ + exp_str(x.exp) + ";\n"@, imps),
        TokV::Function(f) => (buf + fun_str(f, FunctionType::Function), imps),
        TokV::LoopFunction(f) => (buf + fun_str(f, FunctionType::Loop), imps),
        TokV::GeneratorFunction(f) => {
            if !crate::lexer::semantics::contains_frag(imps, "vector"@) {
                (
                    buf + "#include <vector>\n\n"@ + fun_str(f, FunctionType::Generator),
                    imps.push("vector"@),
                )
            } else {
                (buf + fun_str(f, FunctionType::Generator), imps)
            }
        },
        TokV::CImport(ci) => {
            if !crate::lexer::semantics::contains_frag(imps, ci) {
                (buf + "#include "@ + ci + "\n"@, imps.push(ci))
            } else {
                (buf, imps)
            }
        },
        _ => (buf, imps),
    }
}

/// The generator run from position `k` over a token stream.
pub open spec fn tr_from(ts: Seq<TokV>, k: int, buf: Seq<char>, imps: Seq<Seq<char>>) -> (
    Seq<char>,
    Seq<Seq<char>>,
)
    decreases ts.len() - k,
{
    if k < 0 || k >= ts.len() {
        (buf, imps)
    } else {
        let s = tr_step(ts[k], buf, imps);
        tr_from(ts, k + 1, s.0, s.1)
    }
}

/// The generated text of a whole source program: the pipeline's finalized
/// stream rendered from an empty generator state.
pub open spec fn cxx_of(code: Seq<char>) -> Seq<char> {
    tr_from(
        crate::lexer::semantics::pipeline_result(code).toks,
        0,
        Seq::empty(),
        Seq::empty(),
    ).0
}

// ---------------------------------------------------------------------
// The emitters
// ---------------------------------------------------------------------
/// Render a flat expression. The language tag is taken for interface
/// parity with the other emitters; one target exists.
pub fn expression(_this: TranspilerLang, exp: Expression) -> (r: String)
    ensures
        r@ == exp_str(tokens_view(exp@)),
{
    let ghost tv = tokens_view(exp@);
    proof {
        lemma_tokens_view(exp@);
    }
    let mut out = String::new();
    let mut k: usize = 0;
    proof {
        assert(tv.subrange(0, 0) =~= Seq::<TokV>::empty());
        assert(out@ =~= exp_str(tv.subrange(0, 0)));
    }
    while k < exp.len()
        invariant
            0 <= k <= exp@.len(),
            tv == tokens_view(exp@),
            tv.len() == exp@.len(),
            forall|m: int| 0 <= m < exp@.len() ==> tv[m] == token_view(exp@[m]),
            out@ == exp_str(tv.subrange(0, k as int)),
        decreases exp@.len() - k,
    {
        let ghost pre = tv.subrange(0, k as int);
        match &exp[k] {
            Token::Operator(o) => {
                match o {
                    Operator::Plus => out.append("+"),
                    Operator::Minus => out.append("-"),
                    Operator::Mul => out.append("*"),
                    Operator::Div => out.append("/"),
                    Operator::BitShiftLeft => out.append("<<"),
                    Operator::BitShiftRight => out.append(">>"),
                    Operator::Equals => out.append("=="),
                    Operator::And => out.append("&&"),
                    Operator::Or => out.append("||"),
                    Operator::BitAnd => out.append("&"),
                    Operator::BitOr => out.append("|"),
                    Operator::Pipe => (),
                }
            },
            Token::ExpVal(s) => out.append(s.as_str()),
            _ => (),
        }
        proof {
            assert(tv.subrange(0, k + 1 as int).drop_last() =~= pre);
            assert(tv.subrange(0, k + 1 as int).last() == token_view(exp@[k as int]));
        }
        k = k + 1;
    }
    proof {
        assert(tv.subrange(0, tv.len() as int) =~= tv);
    }
    out
}

/// Render one function declaration onto the buffer: header with joined
/// argument list, kind prologue, the body lines (with a closing semicolon
/// after any line that left a statement open), and the kind epilogue.
#[verifier::rlimit(100)]
#[verifier::spinoff_prover]
pub fn function(this: &mut Transpiler, x: &Function, type_: FunctionType)
    ensures
        final(this).buffer@ == old(this).buffer@ + fun_str(
            crate::lexer::model::fun_view(*x),
            type_,
        ),
        final(this).imports == old(this).imports,
        final(this).target_lang == old(this).target_lang,
{
    let ghost fv = crate::lexer::model::fun_view(*x);
    // argument list
    let mut args = String::new();
    let mut k: usize = 0;
    proof {
        assert(fv.arguments =~= crate::lexer::model::args_view(x.arguments@));
        assert(fv.arguments.skip(0) =~= fv.arguments);
    }
    while k < x.arguments.len()
        invariant
            0 <= k <= x.arguments@.len(),
            fv.arguments == crate::lexer::model::args_view(x.arguments@),
            fv.arguments.len() == x.arguments@.len(),
            args_str(fv.arguments) == args@ + args_str(fv.arguments.skip(k as int)),
        decreases x.arguments@.len() - k,
    {
        proof {
            assert(fv.arguments.skip(k as int)[0] == fv.arguments[k as int]);
            assert(fv.arguments.skip(k as int).drop_first() =~= fv.arguments.skip(k as int + 1));
            assert(fv.arguments[k as int] == crate::lexer::model::arg_view(
                x.arguments@[k as int],
            ));
        }
        args.append(x.arguments[k].type_.as_str());
        args.append(" ");
        args.append(x.arguments[k].name.as_str());
        if k + 1 < x.arguments.len() {
            args.append(", ");
        }
        k = k + 1;
    }
    proof {
        assert(fv.arguments.skip(fv.arguments.len() as int) =~= Seq::<ArgV>::empty());
        assert(args_str(Seq::<ArgV>::empty()) =~= Seq::<char>::empty());
        assert(args@ =~= args_str(fv.arguments));
    }
    // header
    if type_ == FunctionType::Generator {
        this.buffer.append("std::vector<");
        this.buffer.append(x.return_type.as_str());
        this.buffer.append(">");
    } else {
        this.buffer.append(x.return_type.as_str());
    }
    this.buffer.append(" ");
    this.buffer.append(x.name.as_str());
    this.buffer.append(" (");
    this.buffer.append(args.as_str());
    this.buffer.append(")\n{\n");
    match type_ {
        FunctionType::Loop => this.buffer.append("do {\n"),
        FunctionType::Generator => this.buffer.append("std::vector<int> dfjfjfdjfndjfnjd;\n"),
        FunctionType::Function => (),
    }
    let ghost after_head = this.buffer@;
    proof {
        let rt = if type_ == FunctionType::Generator {
            "std::vector<"@ + fv.return_type + ">"@
        } else {
            fv.return_type
        };
        let prologue: Seq<char> = match type_ {
            FunctionType::Loop => "do {\n"@,
            FunctionType::Generator => "std::vector<int> dfjfjfdjfndjfnjd;\n"@,
            FunctionType::Function => Seq::empty(),
        };
        assert(after_head =~= old(this).buffer@ + (rt + " "@ + fv.name + " ("@ + args_str(
            fv.arguments,
        ) + ")\n{\n"@) + prologue);
    }
    // body lines
    let mut li: usize = 0;
    proof {
        crate::lexer::model::lemma_lines_view(x.lines@);
        assert(fv.lines.subrange(0, 0) =~= Seq::<LineV>::empty());
        assert(this.buffer@ =~= after_head + lines_str(fv.lines.subrange(0, 0)));
    }
    while li < x.lines.len()
        invariant
            0 <= li <= x.lines@.len(),
            fv.lines.len() == x.lines@.len(),
            forall|m: int|
                0 <= m < x.lines@.len() ==> fv.lines[m] == crate::lexer::model::line_view(
                    x.lines@[m],
                ),
            this.buffer@ == after_head + lines_str(fv.lines.subrange(0, li as int)),
            this.imports == old(this).imports,
            this.target_lang == old(this).target_lang,
        decreases x.lines@.len() - li,
    {
        let ghost lv = fv.lines[li as int];
        let ghost line_start = this.buffer@;
        proof {
            crate::lexer::model::lemma_tokens_view(x.lines@[li as int].tokens@);
        }
        let mut ti: usize = 0;
        let mut semic = false;
        proof {
            assert(lv.tokens.subrange(0, 0) =~= Seq::<TokV>::empty());
            assert(this.buffer@ =~= line_start + toks_str(lv.tokens.subrange(0, 0)));
        }
        while ti < x.lines[li].tokens.len()
            invariant
                0 <= li < x.lines@.len(),
                0 <= ti <= x.lines@[li as int].tokens@.len(),
                lv == crate::lexer::model::line_view(x.lines@[li as int]),
                lv.tokens.len() == x.lines@[li as int].tokens@.len(),
                forall|m: int|
                    0 <= m < x.lines@[li as int].tokens@.len() ==> lv.tokens[m] == token_view(
                        x.lines@[li as int].tokens@[m],
                    ),
                this.buffer@ == line_start + toks_str(lv.tokens.subrange(0, ti as int)),
                semic == any_semi(lv.tokens.subrange(0, ti as int)),
                this.imports == old(this).imports,
                this.target_lang == old(this).target_lang,
            decreases x.lines@[li as int].tokens@.len() - ti,
        {
            let ghost pre = lv.tokens.subrange(0, ti as int);
            let ghost t_v = lv.tokens[ti as int];
            match &x.lines[li].tokens[ti] {
                Token::If(f) => {
                    let cond = expression(this.target_lang, crate::lexer::dup::copy_tokens(
                        &f.condition,
                    ));
                    this.buffer.append("if (");
                    this.buffer.append(cond.as_str());
                    this.buffer.append(")\n{\n");
                },
                Token::ElseIf(f) => {
                    let cond = expression(this.target_lang, crate::lexer::dup::copy_tokens(
                        &f.condition,
                    ));
                    this.buffer.append("else if (");
                    this.buffer.append(cond.as_str());
                    this.buffer.append(")\n{\n");
                },
                Token::Assign(a) => {
                    let e = expression(this.target_lang, crate::lexer::dup::copy_tokens(&a.exp));
                    this.buffer.append(a.var.as_str());
                    this.buffer.append(" = ");
                    this.buffer.append(e.as_str());
                    this.buffer.append(";\n");
                },
                Token::Return(x2) => {
                    let e = expression(this.target_lang, crate::lexer::dup::copy_tokens(x2));
                    this.buffer.append("return ");
                    this.buffer.append(e.as_str());
                    this.buffer.append(";\n");
                },
                Token::Yield(x2) => {
                    let e = expression(this.target_lang, crate::lexer::dup::copy_tokens(x2));
                    this.buffer.append("dfjfjfdjfndjfnjd.push_back(");
                    this.buffer.append(e.as_str());
                    this.buffer.append(");\n");
                },
                Token::Var(v) => {
                    let e = expression(this.target_lang, crate::lexer::dup::copy_tokens(&v.exp));
                    this.buffer.append("auto ");
                    this.buffer.append(v.name.as_str());
                    this.buffer.append(" = ");
                    this.buffer.append(e.as_str());
                    this.buffer.append(";\n");
                },
                Token::End(_) => this.buffer.append("}\n"),
                Token::Else(_) => this.buffer.append("else{\n"),
                Token::Empty => this.buffer.append("\n"),
                Token::Generic(s) => {
                    this.buffer.append(s.as_str());
                    this.buffer.append(" ");
                    semic = true;
                },
                Token::OpenRoBr(_) => {
                    this.buffer.append("(");
                    semic = true;
                },
                Token::CloseRoBr(_) => {
                    this.buffer.append(")");
                    semic = true;
                },
                _ => (),
            }
            proof {
                let sub1 = lv.tokens.subrange(0, ti + 1 as int);
                assert(sub1.drop_last() =~= pre);
                assert(sub1.last() == t_v);
                assert(this.buffer@ =~= line_start + toks_str(sub1));
                if wants_semi(t_v) {
                    assert(sub1[ti as int] == t_v);
                    assert(any_semi(sub1));
                } else {
                    assert forall|m: int| 0 <= m < sub1.len() implies !wants_semi(sub1[m])
                        || any_semi(pre) by {
                        if m < pre.len() {
                            assert(sub1[m] == pre[m]);
                        }
                    }
                    assert(any_semi(sub1) == any_semi(pre));
                }
            }
            ti = ti + 1;
        }
        if semic {
            this.buffer.append(";\n");
        }
        proof {
            assert(lv.tokens.subrange(0, lv.tokens.len() as int) =~= lv.tokens);
            assert(this.buffer@ =~= line_start + line_str(lv));
            assert(fv.lines.subrange(0, li + 1 as int).drop_last() =~= fv.lines.subrange(
                0,
                li as int,
            ));
            assert(fv.lines.subrange(0, li + 1 as int).last() == lv);
            assert(this.buffer@ =~= after_head + lines_str(fv.lines.subrange(0, li + 1 as int)));
        }
        li = li + 1;
    }
    match type_ {
        FunctionType::Loop => this.buffer.append("} while (1);\n}\n"),
        FunctionType::Function => this.buffer.append("}\n"),
        FunctionType::Generator => this.buffer.append("return dfjfjfdjfndjfnjd;\n}\n"),
    }
    proof {
        assert(fv.lines.subrange(0, fv.lines.len() as int) =~= fv.lines);
        assert(this.buffer@ =~= old(this).buffer@ + fun_str(fv, type_));
    }
}

/// Walk the finalized stream once, in order, rendering every recognized
/// top-level token; an unrecognized one renders nothing (the stream's
/// consumer contract makes it the generator's caller's concern).
pub fn transpile(this: &mut Transpiler, ast: Vec<Token>)
    ensures
        final(this).buffer@ == tr_from(
            tokens_view(ast@),
            0,
            old(this).buffer@,
            old(this).imports.deep_view(),
        ).0,
        final(this).imports.deep_view() == tr_from(
            tokens_view(ast@),
            0,
            old(this).buffer@,
            old(this).imports.deep_view(),
        ).1,
        final(this).target_lang == old(this).target_lang,
{
    let ghost tv = tokens_view(ast@);
    let ghost fin = tr_from(tv, 0, this.buffer@, this.imports.deep_view());
    proof {
        lemma_tokens_view(ast@);
    }
    let mut k: usize = 0;
    while k < ast.len()
        invariant
            0 <= k <= ast@.len(),
            tv == tokens_view(ast@),
            tv.len() == ast@.len(),
            forall|m: int| 0 <= m < ast@.len() ==> tv[m] == token_view(ast@[m]),
            tr_from(tv, k as int, this.buffer@, this.imports.deep_view()) == fin,
            this.target_lang == old(this).target_lang,
        decreases ast@.len() - k,
    {
        let ghost g_buf = this.buffer@;
        let ghost g_imps = this.imports.deep_view();
        let ghost t_v = tv[k as int];
        match &ast[k] {
            Token::Const(x) => {
                let e = expression(this.target_lang, crate::lexer::dup::copy_tokens(&x.exp));
                this.buffer.append("const auto ");
                this.buffer.append(x.name.as_str());
                this.buffer.append(" = ");
                this.buffer.append(e.as_str());
                this.buffer.append(";\n");
            },
            Token::Global(x) => {
                let e = expression(this.target_lang, crate::lexer::dup::copy_tokens(&x.exp));
                this.buffer.append("auto ");
                this.buffer.append(x.name.as_str());
                this.buffer.append(" = ");
                this.buffer.append(e.as_str());
                this.buffer.append(";\n");
            },
            Token::Function(x) => {
                let f = crate::lexer::dup::copy_fun(x);
                function(this, &f, FunctionType::Function);
            },
            Token::LoopFunction(x) => {
                let f = crate::lexer::dup::copy_fun(x);
                function(this, &f, FunctionType::Loop);
            },
            Token::GeneratorFunction(x) => {
                let f = crate::lexer::dup::copy_fun(x);
                let has = range_contains(&this.imports, 0, this.imports.len(), "vector");
                proof {
                    assert(this.imports.deep_view().subrange(
                        0,
                        this.imports@.len() as int,
                    ) =~= this.imports.deep_view());
                }
                if !(has) {
                    this.imports.push("vector".to_owned());
                    this.buffer.append("#include <vector>\n\n");
                    proof {
                        assert(this.imports.deep_view() =~= g_imps.push("vector"@));
                    }
                }
                function(this, &f, FunctionType::Generator);
            },
            Token::CImport(ci) => {
                let has = range_contains(&this.imports, 0, this.imports.len(), ci.as_str());
                proof {
                    assert(this.imports.deep_view().subrange(
                        0,
                        this.imports@.len() as int,
                    ) =~= this.imports.deep_view());
                }
                if !(has) {
                    this.buffer.append("#include ");
                    this.buffer.append(ci.as_str());
                    this.buffer.append("\n");
                    let c2 = ci.clone();
                    this.imports.push(c2);
                    proof {
                        assert(this.imports.deep_view() =~= g_imps.push(t_v->CImport_0));
                    }
                }
            },
            _ => (),
        }
        proof {
            let s = tr_step(t_v, g_buf, g_imps);
            assert(this.buffer@ =~= s.0);
            assert(this.imports.deep_view() =~= s.1);
            assert(tr_from(tv, k as int, g_buf, g_imps) == tr_from(
                tv,
                k + 1 as int,
                this.buffer@,
                this.imports.deep_view(),
            ));
        }
        k = k + 1;
    }
}

/// Run the whole pipeline on a source text and compare the generated
/// output, trimmed and newline-terminated, against the expected text.
/// Whitespace at the ends means the four ASCII blank characters.
pub fn test_cxx(code: &str, expected: &str) -> (r: bool)
    requires
        code@.len() <= 0x0400000000000000,
    ensures
        r == (crate::strutil::trim_ws(cxx_of(code@)) + "\n"@ == expected@),
{
    let mut lexer = crate::lexer::Lexer::new();
    let mut diag = crate::Diagnostics::new();
    proof {
        assert(tokens_view(lexer.tmp_ast@) =~= Seq::<TokV>::empty());
        assert(tokens_view(lexer.ast@) =~= Seq::<TokV>::empty());
    }
    lexer.parse(code, &mut diag);
    let mut t = cxx::new();
    proof {
        let tl = crate::lexer::semantics::tl_result(
            crate::lexer::semantics::strings_of(code@),
        );
        assert(Seq::<TokV>::empty() + tl.toks =~= tl.toks);
        assert(crate::lexer::semantics::parse_fin(code@, Seq::<TokV>::empty()).toks
            =~= crate::lexer::semantics::pipeline_result(code@).toks) by {
            lemma_finalize_same(
                tl.toks,
                0,
                0,
                Seq::<TokV>::empty(),
                Seq::<TokV>::empty(),
                Seq::empty(),
                tl.errs,
                tl.round,
                tl.square,
                tl.braces,
            );
        }
        assert(tokens_view(lexer.ast@) =~= crate::lexer::semantics::pipeline_result(code@).toks);
        assert(t.imports.deep_view() =~= Seq::<Seq<char>>::empty());
    }
    transpile(&mut t, lexer.ast);
    proof {
        assert(t.buffer@ =~= cxx_of(code@));
    }
    let mut trimmed = crate::strutil::trim_blank(t.buffer.as_str());
    trimmed.push('\n');
    proof {
        reveal_strlit("\n");
        assert(crate::strutil::trim_ws(cxx_of(code@)) + "\n"@ =~= trimmed@);
    }
    crate::strutil::str_eq(trimmed.as_str(), expected)
}

/// Two finalizing passes over the same list, differing only in their
/// error accumulators, produce the same tokens.
proof fn lemma_finalize_same(
    toks: Seq<TokV>,
    k: int,
    id: int,
    acc1: Seq<TokV>,
    acc2: Seq<TokV>,
    errs1: Seq<(int, Seq<char>)>,
    errs2: Seq<(int, Seq<char>)>,
    round: int,
    square: int,
    braces: int,
)
    requires
        acc1 == acc2,
    ensures
        crate::lexer::semantics::finalize_from(
            toks,
            k,
            id,
            acc1,
            errs1,
            round,
            square,
            braces,
        ).toks == crate::lexer::semantics::finalize_from(
            toks,
            k,
            id,
            acc2,
            errs2,
            round,
            square,
            braces,
        ).toks,
    decreases toks.len() - k,
{
    if 0 <= k < toks.len() {
        match toks[k] {
            TokV::Function(f) => {
                let r = crate::lexer::semantics::ll_result(f.tmp_lines, f.start_ln, id);
                lemma_finalize_same(
                    toks,
                    k + 1,
                    id + 1,
                    acc1.push(
                        TokV::Function(
                            FunV {
                                name: f.name,
                                arguments: f.arguments,
                                return_type: f.return_type,
                                lines: r.lines,
                                tmp_lines: f.tmp_lines,
                                start_ln: f.start_ln,
                            },
                        ),
                    ),
                    acc2.push(
                        TokV::Function(
                            FunV {
                                name: f.name,
                                arguments: f.arguments,
                                return_type: f.return_type,
                                lines: r.lines,
                                tmp_lines: f.tmp_lines,
                                start_ln: f.start_ln,
                            },
                        ),
                    ),
                    errs1 + r.errs,
                    errs2 + r.errs,
                    r.round,
                    r.square,
                    r.braces,
                );
            },
            TokV::LoopFunction(f) => {
                let r = crate::lexer::semantics::ll_result(f.tmp_lines, f.start_ln, id);
                lemma_finalize_same(
                    toks,
                    k + 1,
                    id + 1,
                    acc1.push(
                        TokV::LoopFunction(
                            FunV {
                                name: f.name,
                                arguments: f.arguments,
                                return_type: f.return_type,
                                lines: r.lines,
                                tmp_lines: f.tmp_lines,
                                start_ln: f.start_ln,
                            },
                        ),
                    ),
                    acc2.push(
                        TokV::LoopFunction(
                            FunV {
                                name: f.name,
                                arguments: f.arguments,
                                return_type: f.return_type,
                                lines: r.lines,
                                tmp_lines: f.tmp_lines,
                                start_ln: f.start_ln,
                            },
                        ),
                    ),
                    errs1 + r.errs,
                    errs2 + r.errs,
                    r.round,
                    r.square,
                    r.braces,
                );
            },
            TokV::GeneratorFunction(f) => {
                let r = crate::lexer::semantics::ll_result(f.tmp_lines, f.start_ln, id);
                lemma_finalize_same(
                    toks,
                    k + 1,
                    id + 1,
                    acc1.push(
                        TokV::GeneratorFunction(
                            FunV {
                                name: f.name,
                                arguments: f.arguments,
                                return_type: f.return_type,
                                lines: r.lines,
                                tmp_lines: f.tmp_lines,
                                start_ln: f.start_ln,
                            },
                        ),
                    ),
                    acc2.push(
                        TokV::GeneratorFunction(
                            FunV {
                                name: f.name,
                                arguments: f.arguments,
                                return_type: f.return_type,
                                lines: r.lines,
                                tmp_lines: f.tmp_lines,
                                start_ln: f.start_ln,
                            },
                        ),
                    ),
                    errs1 + r.errs,
                    errs2 + r.errs,
                    r.round,
                    r.square,
                    r.braces,
                );
            },
            t => {
                lemma_finalize_same(
                    toks,
                    k + 1,
                    id,
                    acc1.push(t),
                    acc2.push(t),
                    errs1,
                    errs2,
                    round,
                    square,
                    braces,
                );
            },
        }
    }
}

} // verus!

//! Verified deep copies of the token types. The token stream is a
//! recursive structure through vectors, which keeps the compiler from
//! deriving `Clone` under verification; these functions do the same work
//! with a proof that every copy models the original exactly.

use vstd::prelude::*;

use crate::lexer::model::{
    arg_view, args_view, fun_view, let_view, line_view, lines_view, token_view, tokens_view,
};
use crate::lexer::token;
use crate::lexer::{Line, Token};

verus! {

/// A copy of an argument list, character-exact.
pub fn copy_args(v: &Vec<token::Arg>) -> (r: Vec<token::Arg>)
    ensures
        args_view(r@) == args_view(v@),
{
    let mut out: Vec<token::Arg> = Vec::new();
    let mut k: usize = 0;
    while k < v.len()
        invariant
            0 <= k <= v@.len(),
            out@.len() == k,
            forall|m: int| 0 <= m < k ==> arg_view(out@[m]) == arg_view(v@[m]),
        decreases v@.len() - k,
    {
        out.push(token::Arg { name: v[k].name.clone(), type_: v[k].type_.clone() });
        k = k + 1;
    }
    proof {
        assert(args_view(out@) =~= args_view(v@));
    }
    out
}

/// A copy of one token, model-exact.
pub fn copy_token(t: &Token) -> (r: Token)
    ensures
        token_view(r) == token_view(*t),
    decreases *t,
{
    match t {
        Token::Function(f) => Token::Function(copy_fun(f)),
        Token::LoopFunction(f) => Token::LoopFunction(copy_fun(f)),
        Token::GeneratorFunction(f) => Token::GeneratorFunction(copy_fun(f)),
        Token::Loop(l) => Token::Loop(token::Loop { id: l.id }),
        Token::Const(l) => Token::Const(copy_let(l)),
        Token::Global(l) => Token::Global(copy_let(l)),
        Token::Var(l) => Token::Var(copy_let(l)),
        Token::If(x) => Token::If(
            token::If { condition: copy_tokens(&x.condition), id: x.id, level: x.level },
        ),
        Token::Else(x) => Token::Else(token::Else { id: x.id, level: x.level }),
        Token::ElseIf(x) => Token::ElseIf(
            token::If { condition: copy_tokens(&x.condition), id: x.id, level: x.level },
        ),
        Token::For(x) => Token::For(
            token::For {
                id: x.id,
                level: x.level,
                var_name: x.var_name.clone(),
                iter_exp: copy_tokens(&x.iter_exp),
            },
        ),
        Token::End(b) => Token::End(token::Br { id: b.id, level: b.level }),
        Token::OpenSqBr(b) => Token::OpenSqBr(token::Br { id: b.id, level: b.level }),
        Token::CloseSqBr(b) => Token::CloseSqBr(token::Br { id: b.id, level: b.level }),
        Token::OpenRoBr(b) => Token::OpenRoBr(token::Br { id: b.id, level: b.level }),
        Token::CloseRoBr(b) => Token::CloseRoBr(token::Br { id: b.id, level: b.level }),
        Token::Yield(e) => Token::Yield(copy_tokens(e)),
        Token::Assign(a) => Token::Assign(
            token::Assign { var: a.var.clone(), exp: copy_tokens(&a.exp) },
        ),
        Token::Return(e) => Token::Return(copy_tokens(e)),
        Token::Number(n) => Token::Number(*n),
        Token::String(s) => Token::String(s.clone()),
        Token::OpCode(s) => Token::OpCode(s.clone()),
        Token::Port(s) => Token::Port(s.clone()),
        Token::Comment(s) => Token::Comment(s.clone()),
        Token::CImport(s) => Token::CImport(s.clone()),
        Token::Generic(s) => Token::Generic(s.clone()),
        Token::Unknown(s) => Token::Unknown(s.clone()),
        Token::Line(v) => Token::Line(copy_tokens(v)),
        Token::Expression(e) => Token::Expression(copy_tokens(e)),
        Token::Operator(o) => Token::Operator(*o),
        Token::ExpVal(s) => Token::ExpVal(s.clone()),
        Token::Comma => Token::Comma,
        Token::Empty => Token::Empty,
    }
}

/// A copy of a token sequence, model-exact.
pub fn copy_tokens(v: &Vec<Token>) -> (r: Vec<Token>)
    ensures
        tokens_view(r@) == tokens_view(v@),
    decreases v@,
{
    let mut out: Vec<Token> = Vec::new();
    let mut k: usize = 0;
    while k < v.len()
        invariant
            0 <= k <= v@.len(),
            out@.len() == k,
            forall|m: int| 0 <= m < k ==> token_view(out@[m]) == token_view(v@[m]),
        decreases v@.len() - k,
    {
        let c = copy_token(&v[k]);
        out.push(c);
        k = k + 1;
    }
    proof {
        crate::lexer::model::lemma_tokens_view(out@);
        crate::lexer::model::lemma_tokens_view(v@);
        assert(tokens_view(out@) =~= tokens_view(v@));
    }
    out
}

/// A copy of a binding, model-exact.
pub fn copy_let(l: &token::Let) -> (r: token::Let)
    ensures
        let_view(r) == let_view(*l),
    decreases *l,
{
    token::Let { name: l.name.clone(), exp: copy_tokens(&l.exp) }
}

/// A copy of one finalized line, model-exact.
pub fn copy_line(l: &Line) -> (r: Line)
    ensures
        line_view(r) == line_view(*l),
    decreases *l,
{
    Line { tokens: copy_tokens(&l.tokens), as_string: l.as_string.clone() }
}

/// A copy of a finalized line sequence, model-exact.
pub fn copy_lines(v: &Vec<Line>) -> (r: Vec<Line>)
    ensures
        lines_view(r@) == lines_view(v@),
    decreases v@,
{
    let mut out: Vec<Line> = Vec::new();
    let mut k: usize = 0;
    while k < v.len()
        invariant
            0 <= k <= v@.len(),
            out@.len() == k,
            forall|m: int| 0 <= m < k ==> line_view(out@[m]) == line_view(v@[m]),
        decreases v@.len() - k,
    {
        let c = copy_line(&v[k]);
        out.push(c);
        k = k + 1;
    }
    proof {
        crate::lexer::model::lemma_lines_view(out@);
        crate::lexer::model::lemma_lines_view(v@);
        assert(lines_view(out@) =~= lines_view(v@));
    }
    out
}

/// A copy of a function declaration, model-exact.
pub fn copy_fun(f: &token::Function) -> (r: token::Function)
    ensures
        fun_view(r) == fun_view(*f),
    decreases *f,
{
    let r = token::Function {
        name: f.name.clone(),
        arguments: copy_args(&f.arguments),
        return_type: f.return_type.clone(),
        lines: copy_lines(&f.lines),
        tmp_lines: crate::strutil::clone_string_vecs(&f.tmp_lines),
        start_ln: f.start_ln,
    };
    proof {
        assert(fun_view(r) == fun_view(*f));
    }
    r
}

} // verus!

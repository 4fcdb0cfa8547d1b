//! The mathematical model of the token stream: for every executable token
//! type there is a pure counterpart over `Seq` and `int`, and a view
//! function mapping the one to the other. All contracts of the parsing
//! pipeline are stated over these models.

use vstd::prelude::*;

use crate::lexer::token;
use crate::lexer::token::expression::Operator;
use crate::lexer::{Line, Token};

verus! {

pub struct ArgV {
    pub name: Seq<char>,
    pub type_: Seq<char>,
}

pub struct LetV {
    pub name: Seq<char>,
    pub exp: Seq<TokV>,
}

pub struct IfV {
    pub condition: Seq<TokV>,
    pub id: int,
    pub level: int,
}

pub struct ElseV {
    pub id: int,
    pub level: int,
}

pub struct BrV {
    pub id: int,
    pub level: int,
}

pub struct LoopV {
    pub id: int,
}

pub struct ForV {
    pub id: int,
    pub level: int,
    pub var_name: Seq<char>,
    pub iter_exp: Seq<TokV>,
}

pub struct AssignV {
    pub var: Seq<char>,
    pub exp: Seq<TokV>,
}

pub struct LineV {
    pub tokens: Seq<TokV>,
    pub as_string: Seq<char>,
}

pub struct FunV {
    pub name: Seq<char>,
    pub arguments: Seq<ArgV>,
    pub return_type: Seq<char>,
    pub lines: Seq<LineV>,
    pub tmp_lines: Seq<Seq<Seq<char>>>,
    pub start_ln: int,
}

pub enum TokV {
    Function(FunV),
    LoopFunction(FunV),
    GeneratorFunction(FunV),
    Loop(LoopV),
    Const(LetV),
    Global(LetV),
    Var(LetV),
    If(IfV),
    Else(ElseV),
    ElseIf(IfV),
    For(ForV),
    End(BrV),
    OpenSqBr(BrV),
    CloseSqBr(BrV),
    OpenRoBr(BrV),
    CloseRoBr(BrV),
    Yield(Seq<TokV>),
    Assign(AssignV),
    Return(Seq<TokV>),
    Number(int),
    Str(Seq<char>),
    OpCode(Seq<char>),
    Port(Seq<char>),
    Comment(Seq<char>),
    CImport(Seq<char>),
    Generic(Seq<char>),
    Unknown(Seq<char>),
    Line(Seq<TokV>),
    Expression(Seq<TokV>),
    Operator(Operator),
    ExpVal(Seq<char>),
    Comma,
    Empty,
}

pub open spec fn arg_view(a: token::Arg) -> ArgV {
    ArgV { name: a.name@, type_: a.type_@ }
}

pub open spec fn args_view(s: Seq<token::Arg>) -> Seq<ArgV> {
    s.map(|i: int, a: token::Arg| arg_view(a))
}

pub open spec fn else_view(e: token::Else) -> ElseV {
    ElseV { id: e.id as int, level: e.level as int }
}

pub open spec fn br_view(b: token::Br) -> BrV {
    BrV { id: b.id as int, level: b.level as int }
}

pub open spec fn loop_view(l: token::Loop) -> LoopV {
    LoopV { id: l.id as int }
}

pub open spec fn token_view(t: Token) -> TokV
    decreases t,
{
    match t {
        Token::Function(f) => TokV::Function(fun_view(f)),
        Token::LoopFunction(f) => TokV::LoopFunction(fun_view(f)),
        Token::GeneratorFunction(f) => TokV::GeneratorFunction(fun_view(f)),
        Token::Loop(l) => TokV::Loop(loop_view(l)),
        Token::Const(l) => TokV::Const(let_view(l)),
        Token::Global(l) => TokV::Global(let_view(l)),
        Token::Var(l) => TokV::Var(let_view(l)),
        Token::If(i) => TokV::If(if_view(i)),
        Token::Else(e) => TokV::Else(else_view(e)),
        Token::ElseIf(i) => TokV::ElseIf(if_view(i)),
        Token::For(f) => TokV::For(for_view(f)),
        Token::End(b) => TokV::End(br_view(b)),
        Token::OpenSqBr(b) => TokV::OpenSqBr(br_view(b)),
        Token::CloseSqBr(b) => TokV::CloseSqBr(br_view(b)),
        Token::OpenRoBr(b) => TokV::OpenRoBr(br_view(b)),
        Token::CloseRoBr(b) => TokV::CloseRoBr(br_view(b)),
        Token::Yield(e) => TokV::Yield(tokens_view(e@)),
        Token::Assign(a) => TokV::Assign(assign_view(a)),
        Token::Return(e) => TokV::Return(tokens_view(e@)),
        Token::Number(n) => TokV::Number(n as int),
        Token::String(s) => TokV::Str(s@),
        Token::OpCode(s) => TokV::OpCode(s@),
        Token::Port(s) => TokV::Port(s@),
        Token::Comment(s) => TokV::Comment(s@),
        Token::CImport(s) => TokV::CImport(s@),
        Token::Generic(s) => TokV::Generic(s@),
        Token::Unknown(s) => TokV::Unknown(s@),
        Token::Line(v) => TokV::Line(tokens_view(v@)),
        Token::Expression(e) => TokV::Expression(tokens_view(e@)),
        Token::Operator(o) => TokV::Operator(o),
        Token::ExpVal(s) => TokV::ExpVal(s@),
        Token::Comma => TokV::Comma,
        Token::Empty => TokV::Empty,
    }
}

/// The model of a whole token sequence.
pub open spec fn tokens_view(s: Seq<Token>) -> Seq<TokV>
    decreases s,
{
    if s.len() == 0 {
        Seq::empty()
    } else {
        tokens_view(s.drop_last()).push(token_view(s.last()))
    }
}

pub open spec fn let_view(l: token::Let) -> LetV
    decreases l,
{
    LetV { name: l.name@, exp: tokens_view(l.exp@) }
}

pub open spec fn if_view(f: token::If) -> IfV
    decreases f,
{
    IfV { condition: tokens_view(f.condition@), id: f.id as int, level: f.level as int }
}

pub open spec fn for_view(f: token::For) -> ForV
    decreases f,
{
    ForV {
        id: f.id as int,
        level: f.level as int,
        var_name: f.var_name@,
        iter_exp: tokens_view(f.iter_exp@),
    }
}

pub open spec fn assign_view(a: token::Assign) -> AssignV
    decreases a,
{
    AssignV { var: a.var@, exp: tokens_view(a.exp@) }
}

pub open spec fn line_view(l: Line) -> LineV
    decreases l,
{
    LineV { tokens: tokens_view(l.tokens@), as_string: l.as_string@ }
}

/// The model of a sequence of finalized lines.
pub open spec fn lines_view(s: Seq<Line>) -> Seq<LineV>
    decreases s,
{
    if s.len() == 0 {
        Seq::empty()
    } else {
        lines_view(s.drop_last()).push(line_view(s.last()))
    }
}

pub open spec fn fun_view(f: token::Function) -> FunV
    decreases f,
{
    FunV {
        name: f.name@,
        arguments: args_view(f.arguments@),
        return_type: f.return_type@,
        lines: lines_view(f.lines@),
        tmp_lines: f.tmp_lines.deep_view(),
        start_ln: f.start_ln as int,
    }
}

/// The model of a token sequence is the sequence of the tokens' models.
pub broadcast proof fn lemma_tokens_view(s: Seq<Token>)
    ensures
        (#[trigger] tokens_view(s)).len() == s.len(),
        forall|i: int| 0 <= i < s.len() ==> tokens_view(s)[i] == token_view(s[i]),
    decreases s.len(),
{
    if s.len() > 0 {
        lemma_tokens_view(s.drop_last());
    }
}

/// Appending a token appends its model.
pub proof fn lemma_tokens_view_push(s: Seq<Token>, t: Token)
    ensures
        tokens_view(s.push(t)) == tokens_view(s).push(token_view(t)),
{
    assert(s.push(t).drop_last() =~= s);
    assert(s.push(t).last() == t);
}

/// Appending a line appends its model.
pub proof fn lemma_lines_view_push(s: Seq<Line>, l: Line)
    ensures
        lines_view(s.push(l)) == lines_view(s).push(line_view(l)),
{
    assert(s.push(l).drop_last() =~= s);
    assert(s.push(l).last() == l);
}

/// The model of a line sequence is the sequence of the lines' models.
pub broadcast proof fn lemma_lines_view(s: Seq<Line>)
    ensures
        (#[trigger] lines_view(s)).len() == s.len(),
        forall|i: int| 0 <= i < s.len() ==> lines_view(s)[i] == line_view(s[i]),
    decreases s.len(),
{
    if s.len() > 0 {
        lemma_lines_view(s.drop_last());
    }
}

} // verus!

//! The lexer: data types for the flat token stream, and the two-pass
//! scanning pipeline that produces it.

use vstd::prelude::*;

pub mod dup;
pub mod model;
pub mod semantics;
pub mod token;

mod lexer;

pub use lexer::generate_expression;

verus! {

/// A tagged union over every recognizable construct. Exactly one variant is
/// active per instance; a consumer of the stream is expected to handle all
/// variants exhaustively.
#[derive(Debug)]
pub enum Token {
    Function(token::Function),
    LoopFunction(token::Function),
    GeneratorFunction(token::Function),
    Loop(token::Loop),
    Const(token::Let),
    Global(token::Let),
    Var(token::Let),
    If(token::If),
    Else(token::Else),
    ElseIf(token::If),
    For(token::For),
    End(token::Br),
    OpenSqBr(token::Br),
    CloseSqBr(token::Br),
    OpenRoBr(token::Br),
    CloseRoBr(token::Br),
    Yield(token::Expression),
    Assign(token::Assign),
    Return(token::Expression),
    Number(i64),
    String(String),
    OpCode(String),
    Port(String),
    Comment(String),
    CImport(String),
    Generic(String),
    Unknown(String),
    Line(Vec<Token>),
    Expression(token::Expression),
    Operator(token::expression::Operator),
    ExpVal(String),
    Comma,
    Empty,
}

impl View for Token {
    type V = model::TokV;

    open spec fn view(&self) -> model::TokV {
        model::token_view(*self)
    }
}

/// One finalized line of a function body: its semantic tokens plus the
/// fragment-joined original text (kept for diagnostics, never reparsed).
#[derive(Debug)]
pub struct Line {
    pub tokens: Vec<Token>,
    pub as_string: String,
}

impl View for Line {
    type V = model::LineV;

    open spec fn view(&self) -> model::LineV {
        model::line_view(*self)
    }
}

/// The kind of the function declaration being scanned: plain, infinite-loop
/// (`loop fn`) or generator (`gen fn`).
#[derive(Clone, Copy, Debug, PartialEq, Eq, Structural)]
pub enum FunctionType {
    Function,
    Loop,
    Generator,
}

/// The three independent bracket depth counters, reset to zero at the start
/// of every function and owned by whichever scanner currently holds control.
#[derive(Clone, Debug)]
pub struct Brackets {
    pub round: i64,
    pub square: i64,
    pub braces: i64,
}

/// The lexer state: the provisional token list produced by the top-level
/// scanner (`tmp_ast`), the finalized stream (`ast`), the per-line fragment
/// sequences (`strings`), and the bracket counters.
#[derive(Debug)]
pub struct Lexer {
    pub tmp_ast: Vec<Token>,
    pub ast: Vec<Token>,
    pub strings: Vec<Vec<String>>,
    pub brackets: Brackets,
}

} // verus!

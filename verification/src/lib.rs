//! Front end of a small experimental language: a character tokenizer, a
//! two-pass parser (top-level declaration scanner and statement-level
//! scanner), an expression sub-tokenizer, an explicit diagnostics context,
//! and a code generator that renders the token stream as C++ source.

pub mod laws;
pub mod lexer;
pub mod strutil;
pub mod transpiler;

use vstd::prelude::*;

verus! {

/// A single reported diagnostic: the 1-based source line it concerns
/// (0 when no location is known) and a short description.
#[derive(Clone, Debug)]
pub struct DiagMsg {
    pub line: i64,
    pub message: &'static str,
}

impl View for DiagMsg {
    type V = (int, Seq<char>);

    open spec fn view(&self) -> (int, Seq<char>) {
        (self.line as int, self.message@)
    }
}

/// An explicit diagnostics context, passed by reference through every
/// component: it records each reported parse error together with a line
/// number, and exposes the error count that callers consult to decide
/// whether to proceed to code generation.
#[derive(Clone, Debug)]
pub struct Diagnostics {
    pub errors: Vec<DiagMsg>,
}

impl View for Diagnostics {
    type V = Seq<(int, Seq<char>)>;

    open spec fn view(&self) -> Seq<(int, Seq<char>)> {
        self.errors@.map(|i: int, m: DiagMsg| m@)
    }
}

impl Diagnostics {
    /// A fresh context with no recorded errors.
    pub fn new() -> (d: Diagnostics)
        ensures
            d@ == Seq::<(int, Seq<char>)>::empty(),
    {
        let d = Diagnostics { errors: Vec::new() };
        proof {
            assert(d@ =~= Seq::<(int, Seq<char>)>::empty());
        }
        d
    }

    /// Record one error at the given 1-based source line.
    pub fn report(&mut self, line: i64, message: &'static str)
        ensures
            final(self)@ == old(self)@.push((line as int, message@)),
    {
        self.errors.push(DiagMsg { line, message });
        proof {
            assert(self@ =~= old(self)@.push((line as int, message@)));
        }
    }

    /// How many errors have been reported so far.
    pub fn error_count(&self) -> (n: usize)
        ensures
            n == self@.len(),
    {
        self.errors.len()
    }
}

/// Bump the error count without recording a location: the counterpart of
/// reporting an error whose message was already emitted elsewhere.
pub fn lexer_error(diag: &mut Diagnostics)
    ensures
        final(diag)@ == old(diag)@.push((0int, ""@)),
{
    diag.report(0, "");
}

/// The categories a host program may use to tag emitted messages.
pub enum PrintT {
    Error,
    LexerError,
    Lexer,
    Syntax,
    Info,
    Cpu,
    Clear,
    Test,
    CXX,
}

} // verus!

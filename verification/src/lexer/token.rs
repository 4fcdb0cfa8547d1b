//! The structs carried by the token variants.

use vstd::prelude::*;

pub mod expression;

verus! {

/// A flat, precedence-free run of Operator / ExpVal tokens.
pub type Expression = Vec<super::Token>;

/// A function declaration: signature data plus its body, first captured raw
/// (`tmp_lines`, one fragment sequence per source line) and later finalized
/// into semantic `lines` by the statement-level scanner.
#[derive(Debug)]
pub struct Function {
    pub name: String,
    pub arguments: Vec<Arg>,
    pub return_type: String,
    pub lines: Vec<super::Line>,
    pub tmp_lines: Vec<Vec<String>>,
    pub start_ln: i64,
}

/// An unconditional loop block, tagged with the brace depth at which it
/// opened.
#[derive(Clone, Debug)]
pub struct Loop {
    pub id: i64,
}

/// A `for VAR in EXPR { ... }` header.
#[derive(Debug)]
pub struct For {
    pub id: i64,
    pub level: i64,
    pub var_name: String,
    pub iter_exp: Expression,
}

impl For {
    pub fn new(var_name: String, iter_exp: Expression, id: i64, level: i64) -> (r: For)
        requires
            i64::MIN <= id as int + level as int <= i64::MAX,
        ensures
            r.var_name == var_name,
            r.iter_exp == iter_exp,
            r.level == level,
            r.id == id + level,
    {
        For { var_name, iter_exp, level, id: id + level }
    }
}

/// A `const`, `global` or `let` binding: a name and its expression.
#[derive(Debug)]
pub struct Let {
    pub name: String,
    pub exp: Expression,
}

/// An `if` or `else if` header: the condition plus the scope identity pair.
#[derive(Debug)]
pub struct If {
    pub condition: Expression,
    pub id: i64,
    pub level: i64,
}

impl If {
    pub fn new(condition: Expression, id: i64, level: i64) -> (r: If)
        requires
            i64::MIN <= id as int + level as int <= i64::MAX,
        ensures
            r.condition == condition,
            r.level == level,
            r.id == id + level,
    {
        If { condition, level, id: id + level }
    }
}

/// An `else` header, carrying the scope identity pair.
#[derive(Clone, Debug)]
pub struct Else {
    pub level: i64,
    pub id: i64,
}

impl Else {
    pub fn new(id: i64, level: i64) -> (r: Else)
        requires
            i64::MIN <= id as int + level as int <= i64::MAX,
        ensures
            r.level == level,
            r.id == id + level,
    {
        Else { level, id: id + level }
    }
}

/// A bracket or closing-brace marker, carrying the scope identity pair.
#[derive(Clone, Debug)]
pub struct Br {
    pub level: i64,
    pub id: i64,
}

impl Br {
    pub fn new(id: i64, level: i64) -> (r: Br)
        requires
            i64::MIN <= id as int + level as int <= i64::MAX,
        ensures
            r.level == level,
            r.id == id + level,
    {
        Br { level, id: id + level }
    }
}

/// One declared function argument: a name and a type, both opaque text.
#[derive(Clone, Debug)]
pub struct Arg {
    pub name: String,
    pub type_: String,
}

/// An assignment statement: target name and right-hand expression.
#[derive(Debug)]
pub struct Assign {
    pub var: String,
    pub exp: Expression,
}

} // verus!

//! The meaning of the pipeline, stated once, purely: how source text splits
//! into per-line fragments, and how the two scanners walk those fragments.
//! Every contract of the executable scanners is an equation against the
//! functions of this module.
//!
//! The scanners are recursive-structure recognizers implemented without
//! recursion on syntax trees: nesting is encoded by depth counters and by
//! composite `(function id, level)` identifiers. Their meaning is given here
//! as a small-step machine over a position `(i, j)` (line, fragment): each
//! step consumes at least one fragment or moves to the next line, so the
//! definitions terminate structurally.

use vstd::prelude::*;

use crate::lexer::model::{ArgV, AssignV, BrV, ElseV, ForV, FunV, IfV, LetV, LineV, LoopV, TokV};
use crate::lexer::FunctionType;

verus! {

// ---------------------------------------------------------------------
// Diagnostic messages
// ---------------------------------------------------------------------
pub const MSG_PROVIDE_CODE: &'static str = "Please provide some code";

pub const MSG_EXPECTED_FN_NAME: &'static str = "Expected function name";

pub const MSG_EXPECTED_OPENING_BRACKET: &'static str =
    "Expected opening bracket after function name";

pub const MSG_UNEXPECTED_OPENING_BRACKET: &'static str = "Unexpected opening bracket";

pub const MSG_EXPECTED_ARG_NAME: &'static str = "Expected argument `name`";

pub const MSG_EXPECTED_COLON: &'static str = "Expected `:`";

pub const MSG_EXPECTED_ARG_TYPE: &'static str = "Expected argument `type`";

pub const MSG_EXPECTED_BRACES_OR_COLON: &'static str = "Expected opening braces or colon";

pub const MSG_EXPECTED_RETURN_TYPE: &'static str = "Expected return type";

pub const MSG_EXPECTED_BRACES: &'static str = "Expected opening braces";

pub const MSG_UNABLE_TO_PARSE_FN: &'static str = "Unable to parse function";

pub const MSG_EXPECTED_FN_NAME_AND_BRACKET: &'static str =
    "Expected function name and opening bracket";

pub const MSG_EXPECTED_EQ: &'static str = "Expected `=`";

pub const MSG_WRONG_SYNTAX: &'static str = "Wrong Syntax";

pub const MSG_MULTILINE_ARRAY: &'static str =
    "Creating a multiline Array with the let binding is not supported";

pub const MSG_EXPECTED_PATH: &'static str = "Expected `path`";

pub const MSG_UNIMPLEMENTED: &'static str = "Unimplemented directive";

pub const MSG_EXPECTED_SOMETHING: &'static str = "Expected `something`";

pub const MSG_UNEXPECTED_TOKEN: &'static str = "Unexpected token";

pub const MSG_EXPECTED_OPEN_BRACE: &'static str = "Expected `{`";

pub const MSG_EXPECTED_CONDITION: &'static str = "Expected condition";

pub const MSG_EXPECTED_BRACE_OR_IF: &'static str = "Expected `{` or `if`";

pub const MSG_EXPECTED_IN: &'static str = "Expected `in`";

pub const MSG_EXPECTED_VAR_NAME: &'static str = "Expected var_name";

pub const MSG_EXPECTED_ITER: &'static str = "Expected iterator or expression";

pub const MSG_EXPECTED_EXP_YIELD: &'static str = "Expected expression after `yield`";

pub const MSG_EXPECTED_EXP_RETURN: &'static str = "Expected expression after `return`";

pub const MSG_EXPECTED_EXP_ASSIGN: &'static str = "Expected expression after assignment";

pub const RET_VOID: &'static str = "void";

// ---------------------------------------------------------------------
// Character tokenizer
// ---------------------------------------------------------------------
/// The delimiter characters that always form a fragment of their own.
pub open spec fn is_delim(c: char) -> bool {
    c == '(' || c == ')' || c == '{' || c == '}' || c == '[' || c == ']' || c == ',' || c == '='
        || c == '+' || c == '-' || c == '*' || c == '"' || c == '#'
}

/// The fragments of the remainder of a line, given the in-progress text
/// buffer `buf`. On a space the buffer flushes (if nonempty); a delimiter
/// flushes the buffer and stands alone; `/` merges with an immediately
/// following `/` into one `//` fragment; at end of line the buffer is
/// emitted even when empty, so an empty line yields one empty fragment.
pub open spec fn frags_from(line: Seq<char>, buf: Seq<char>) -> Seq<Seq<char>>
    decreases line.len(),
{
    if line.len() == 0 {
        seq![buf]
    } else {
        let c = line[0];
        let rest = line.drop_first();
        if c == ' ' {
            if buf.len() > 0 {
                seq![buf] + frags_from(rest, Seq::empty())
            } else {
                frags_from(rest, Seq::empty())
            }
        } else if c == '/' {
            let pre: Seq<Seq<char>> = if buf.len() > 0 {
                seq![buf]
            } else {
                Seq::empty()
            };
            if rest.len() > 0 && rest[0] == '/' {
                pre.push(seq!['/', '/']) + frags_from(rest.drop_first(), Seq::empty())
            } else {
                pre.push(seq!['/']) + frags_from(rest, Seq::empty())
            }
        } else if is_delim(c) {
            let pre: Seq<Seq<char>> = if buf.len() > 0 {
                seq![buf]
            } else {
                Seq::empty()
            };
            pre.push(seq![c]) + frags_from(rest, Seq::empty())
        } else {
            frags_from(rest, buf.push(c))
        }
    }
}

/// The fragment sequence of one source line.
pub open spec fn frags_of_line(line: Seq<char>) -> Seq<Seq<char>> {
    frags_from(line, Seq::empty())
}

/// A line with one trailing carriage return removed.
pub open spec fn strip_cr(l: Seq<char>) -> Seq<char> {
    if l.len() > 0 && l.last() == '\r' {
        l.drop_last()
    } else {
        l
    }
}

/// Split on `'\n'`, like `str::lines`: each line loses a trailing `'\r'`,
/// and a trailing newline does not open a final empty line.
pub open spec fn lines_from(s: Seq<char>, cur: Seq<char>) -> Seq<Seq<char>>
    decreases s.len(),
{
    if s.len() == 0 {
        if cur.len() == 0 {
            Seq::empty()
        } else {
            seq![strip_cr(cur)]
        }
    } else {
        if s[0] == '\n' {
            seq![strip_cr(cur)] + lines_from(s.drop_first(), Seq::empty())
        } else {
            lines_from(s.drop_first(), cur.push(s[0]))
        }
    }
}

pub open spec fn lines_of(s: Seq<char>) -> Seq<Seq<char>> {
    lines_from(s, Seq::empty())
}

/// The per-line fragment sequences of a whole source text.
pub open spec fn strings_of(code: Seq<char>) -> Seq<Seq<Seq<char>>> {
    lines_of(code).map(|i: int, l: Seq<char>| frags_of_line(l))
}

// ---------------------------------------------------------------------
// Positions and counting
// ---------------------------------------------------------------------
/// Total number of fragments from line `i` on.
pub open spec fn count_tail(lines: Seq<Seq<Seq<char>>>, i: int) -> int
    decreases lines.len() - i,
{
    if i < 0 || i >= lines.len() {
        0
    } else {
        lines[i].len() + count_tail(lines, i + 1)
    }
}

/// Total number of fragments at or after position `(i, j)`.
pub open spec fn count_from(lines: Seq<Seq<Seq<char>>>, i: int, j: int) -> int {
    if 0 <= i < lines.len() {
        count_tail(lines, i) - j
    } else {
        0
    }
}

pub open spec fn count_all(lines: Seq<Seq<Seq<char>>>) -> int {
    count_tail(lines, 0)
}

/// Offset, from `from`, of the first occurrence of fragment `x`; if `x`
/// does not occur, the offset reaches the end of the line.
pub open spec fn find_off(line: Seq<Seq<char>>, from: int, x: Seq<char>) -> nat
    decreases line.len() - from,
{
    if from < 0 || from >= line.len() {
        0
    } else if line[from] == x {
        0
    } else {
        1 + find_off(line, from + 1, x)
    }
}

pub open spec fn contains_frag(fs: Seq<Seq<char>>, x: Seq<char>) -> bool {
    exists|k: int| 0 <= k < fs.len() && fs[k] == x
}

/// Fragments joined with single spaces.
pub open spec fn join_spaced(fs: Seq<Seq<char>>) -> Seq<char>
    decreases fs.len(),
{
    if fs.len() == 0 {
        Seq::empty()
    } else if fs.len() == 1 {
        fs[0]
    } else {
        fs[0] + seq![' '] + join_spaced(fs.drop_first())
    }
}

/// Concatenation of fragments with nothing between them.
pub open spec fn concat_frags(fs: Seq<Seq<char>>) -> Seq<char>
    decreases fs.len(),
{
    if fs.len() == 0 {
        Seq::empty()
    } else {
        fs[0] + concat_frags(fs.drop_first())
    }
}

// ---------------------------------------------------------------------
// Expression sub-tokenizer
// ---------------------------------------------------------------------
/// The recognized operator fragments map 1:1 to an Operator tag; every
/// other fragment becomes an opaque value atom.
pub open spec fn exp_token_of(f: Seq<char>) -> TokV {
    if f == "+"@ {
        TokV::Operator(crate::lexer::token::expression::Operator::Plus)
    } else if f == "-"@ {
        TokV::Operator(crate::lexer::token::expression::Operator::Minus)
    } else if f == "*"@ {
        TokV::Operator(crate::lexer::token::expression::Operator::Mul)
    } else if f == "/"@ {
        TokV::Operator(crate::lexer::token::expression::Operator::Div)
    } else if f == "<<"@ {
        TokV::Operator(crate::lexer::token::expression::Operator::BitShiftLeft)
    } else if f == ">>"@ {
        TokV::Operator(crate::lexer::token::expression::Operator::BitShiftRight)
    } else if f == "=="@ {
        TokV::Operator(crate::lexer::token::expression::Operator::Equals)
    } else if f == "|>"@ {
        TokV::Operator(crate::lexer::token::expression::Operator::Pipe)
    } else if f == "|"@ {
        TokV::Operator(crate::lexer::token::expression::Operator::BitOr)
    } else if f == "&"@ {
        TokV::Operator(crate::lexer::token::expression::Operator::BitAnd)
    } else if f == "||"@ {
        TokV::Operator(crate::lexer::token::expression::Operator::Or)
    } else if f == "&&"@ {
        TokV::Operator(crate::lexer::token::expression::Operator::And)
    } else {
        TokV::ExpVal(f)
    }
}

/// A fragment run as a flat expression.
pub open spec fn expression_of(fs: Seq<Seq<char>>) -> Seq<TokV> {
    fs.map(|i: int, f: Seq<char>| exp_token_of(f))
}

/// The rejected shape for a binding value: an opening `[` with no closing
/// `]` anywhere in the run (a multi-line array literal).
pub open spec fn unbalanced_sq(fs: Seq<Seq<char>>) -> bool {
    contains_frag(fs, "["@) && !contains_frag(fs, "]"@)
}

// ---------------------------------------------------------------------
// Function argument lists
// ---------------------------------------------------------------------
/// One parsed step of the argument-list grammar: each argument fragment is
/// `name:` followed by the type fragments (concatenated) up to a `,` or the
/// end of the list.
pub open spec fn parse_args_from(
    a: Seq<Seq<char>>,
    pos: int,
    ln: int,
    args: Seq<ArgV>,
    errs: Seq<(int, Seq<char>)>,
) -> (Seq<ArgV>, Seq<(int, Seq<char>)>)
    decreases a.len() - pos,
{
    if pos < 0 || pos >= a.len() {
        (args, errs)
    } else {
        let x = a[pos];
        if x.len() == 0 {
            parse_args_from(a, pos + 1, ln, args, errs.push((ln, MSG_EXPECTED_ARG_NAME@)))
        } else if x.last() != ':' {
            parse_args_from(a, pos + 1, ln, args, errs.push((ln, MSG_EXPECTED_COLON@)))
        } else {
            let t_end = pos + 1 + find_off(a, pos + 1, ","@);
            if t_end == pos + 1 {
                // no type fragment before the `,` (or the end): the `,` is
                // not consumed and will be reported as a malformed argument
                parse_args_from(a, pos + 1, ln, args, errs.push((ln, MSG_EXPECTED_ARG_TYPE@)))
            } else {
                let arg = ArgV {
                    name: x.drop_last(),
                    type_: concat_frags(a.subrange(pos + 1, if t_end <= a.len() {
                        t_end
                    } else {
                        a.len() as int
                    })),
                };
                if t_end < a.len() {
                    // the `,` is consumed
                    parse_args_from(a, t_end + 1, ln, args.push(arg), errs)
                } else {
                    parse_args_from(a, a.len() as int, ln, args.push(arg), errs)
                }
            }
        }
    }
}

pub open spec fn parse_args(a: Seq<Seq<char>>, ln: int) -> (Seq<ArgV>, Seq<(int, Seq<char>)>) {
    parse_args_from(a, 0, ln, Seq::empty(), Seq::empty())
}

/// The diagnostics reported while collecting the raw argument fragments:
/// one per unexpected nested `(`, in scan order.
pub open spec fn nested_paren_errs(a: Seq<Seq<char>>, ln: int) -> Seq<(int, Seq<char>)>
    decreases a.len(),
{
    if a.len() == 0 {
        Seq::empty()
    } else {
        nested_paren_errs(a.drop_last(), ln) + (if a.last() == "("@ {
            seq![(ln, MSG_UNEXPECTED_OPENING_BRACKET@)]
        } else {
            Seq::empty()
        })
    }
}

/// How many nested `(` fragments occur in the argument run.
pub open spec fn nested_paren_count(a: Seq<Seq<char>>) -> int
    decreases a.len(),
{
    if a.len() == 0 {
        0
    } else {
        nested_paren_count(a.drop_last()) + (if a.last() == "("@ {
            1int
        } else {
            0int
        })
    }
}

// ---------------------------------------------------------------------
// Top-level scanner
// ---------------------------------------------------------------------
/// The state of a function-body capture in flight: the signature data
/// already parsed, the body line being accumulated, and the lines captured
/// so far. The brace counter itself lives in the scanner state.
pub struct CapSt {
    pub kind: FunctionType,
    pub name: Seq<char>,
    pub args: Seq<ArgV>,
    pub ret: Seq<char>,
    pub start_ln: int,
    pub temp: Seq<Seq<char>>,
    pub body: Seq<Seq<Seq<char>>>,
}

/// What the top-level scanner is doing: scanning declarations (with the
/// pending function kind set by `loop` / `gen`), or capturing a function
/// body verbatim.
pub enum TlMode {
    Scan(FunctionType),
    Capture(CapSt),
}

/// The outcome of the top-level scan: the provisional token list, the
/// diagnostics in order of report, and the final bracket counters.
pub struct TlRes {
    pub toks: Seq<TokV>,
    pub errs: Seq<(int, Seq<char>)>,
    pub round: int,
    pub square: int,
    pub braces: int,
}

/// The outcome of parsing a function signature (everything on the `fn`
/// line up to the body). `off` encodes where scanning resumes: the next
/// position is `j + 1 + off`, clamped to the line's end, where `j` is the
/// index of the `fn` fragment itself.
pub enum SigRes {
    NextLine { errs: Seq<(int, Seq<char>)>, round: int },
    Resume { errs: Seq<(int, Seq<char>)>, off: nat, round: int },
    Enter {
        errs: Seq<(int, Seq<char>)>,
        name: Seq<char>,
        args: Seq<ArgV>,
        ret: Seq<char>,
        off: nat,
        round: int,
    },
}

/// Parse a `fn` signature beginning at fragment `j` of line `L`: the next
/// fragment is the name, then `(`, the argument run up to `)`, then `{`
/// directly or `:`, a return type and `{`. Every malformed shape is
/// reported and recovered from; a missing return type defaults to the
/// `void` sentinel.
pub open spec fn parse_sig(L: Seq<Seq<char>>, j: int, ln: int) -> SigRes {
    if L.len() <= j + 2 {
        SigRes::NextLine { errs: seq![(ln, MSG_EXPECTED_FN_NAME_AND_BRACKET@)], round: 0 }
    } else {
        let name = L[j + 1];
        let open = L[j + 2];
        if name == "("@ {
            SigRes::NextLine { errs: seq![(ln, MSG_EXPECTED_FN_NAME@)], round: 0 }
        } else if open != "("@ {
            SigRes::Resume { errs: seq![(ln, MSG_EXPECTED_OPENING_BRACKET@)], off: 2, round: 0 }
        } else {
            let r_off = find_off(L, j + 3, ")"@);
            let found_r = j + 3 + r_off < L.len();
            let argfrags = L.subrange(j + 3, if found_r {
                j + 3 + r_off
            } else {
                L.len() as int
            });
            let nerrs = nested_paren_errs(argfrags, ln);
            let round1 = 1 + nested_paren_count(argfrags) - (if found_r {
                1int
            } else {
                0int
            });
            let pa = parse_args(argfrags, ln);
            if !found_r {
                // the `)` was never found: the line is exhausted and the
                // opening brace is missing with it
                SigRes::NextLine {
                    errs: nerrs + pa.1 + seq![(ln, MSG_EXPECTED_BRACES@)],
                    round: round1,
                }
            } else {
                let p = j + 4 + r_off;
                if p >= L.len() {
                    SigRes::NextLine {
                        errs: nerrs + pa.1 + seq![(ln, MSG_EXPECTED_BRACES@)],
                        round: round1,
                    }
                } else {
                    let op = L[p];
                    if op == "{"@ {
                        SigRes::Enter {
                            errs: nerrs + pa.1,
                            name,
                            args: pa.0,
                            ret: RET_VOID@,
                            off: (4 + r_off) as nat,
                            round: round1,
                        }
                    } else if op == ":"@ {
                        let has_rt = p + 1 < L.len();
                        let ret = if has_rt {
                            L[p + 1]
                        } else {
                            RET_VOID@
                        };
                        let rerrs: Seq<(int, Seq<char>)> = if has_rt {
                            Seq::empty()
                        } else {
                            seq![(ln, MSG_EXPECTED_RETURN_TYPE@)]
                        };
                        let berrs: Seq<(int, Seq<char>)> = if p + 2 < L.len() && L[p + 2]
                            != "{"@ {
                            seq![(ln, MSG_EXPECTED_BRACES@)]
                        } else {
                            Seq::empty()
                        };
                        SigRes::Enter {
                            errs: nerrs + pa.1 + rerrs + berrs,
                            name,
                            args: pa.0,
                            ret,
                            off: (6 + r_off) as nat,
                            round: round1,
                        }
                    } else {
                        SigRes::Resume {
                            errs: nerrs + pa.1 + seq![(ln, MSG_EXPECTED_BRACES_OR_COLON@)],
                            off: (4 + r_off) as nat,
                            round: round1,
                        }
                    }
                }
            }
        }
    }
}

/// How many fragments remain in the current line (used as the second
/// component of the scanners' termination measure).
pub open spec fn rem_in_line(lines: Seq<Seq<Seq<char>>>, i: int, j: int) -> int {
    if 0 <= i < lines.len() {
        lines[i].len() - j
    } else {
        0
    }
}

/// Build the function token of the pending kind.
pub open spec fn fn_token_of(st: CapSt, body: Seq<Seq<Seq<char>>>) -> TokV {
    let fv = FunV {
        name: st.name,
        arguments: st.args,
        return_type: st.ret,
        lines: Seq::empty(),
        tmp_lines: body,
        start_ln: st.start_ln,
    };
    match st.kind {
        FunctionType::Function => TokV::Function(fv),
        FunctionType::Loop => TokV::LoopFunction(fv),
        FunctionType::Generator => TokV::GeneratorFunction(fv),
    }
}

/// One fragment (or line boundary) at a time, the top-level scan: `loop` /
/// `gen` set the pending kind; `fn` parses a signature and begins body
/// capture; `//` records the rest of the line as a comment; `const` /
/// `global`
/// read a binding from the rest of the line; `#` reads an include; empty
/// fragments are skipped; anything else is an Unknown token and an error.
/// During capture, braces are counted and fragments accumulate verbatim
/// until the brace counter returns to zero, which emits exactly one
/// function token; input exhausted mid-capture reports the function as
/// unparsable and emits nothing for it.
pub open spec fn tl_from(
    lines: Seq<Seq<Seq<char>>>,
    i: int,
    j: int,
    mode: TlMode,
    round: int,
    square: int,
    braces: int,
    toks: Seq<TokV>,
    errs: Seq<(int, Seq<char>)>,
) -> TlRes
    decreases lines.len() - i, rem_in_line(lines, i, j),
{
    if i < 0 || i >= lines.len() {
        match mode {
            TlMode::Scan(_) => TlRes { toks, errs, round, square, braces },
            TlMode::Capture(st) => TlRes {
                toks,
                errs: errs.push((st.start_ln, MSG_UNABLE_TO_PARSE_FN@)),
                round,
                square,
                braces,
            },
        }
    } else {
        let L = lines[i];
        let ln = i + 1;
        if j >= L.len() {
            match mode {
                TlMode::Scan(_) => tl_from(lines, i + 1, 0, mode, round, square, braces, toks, errs),
                TlMode::Capture(st) => tl_from(
                    lines,
                    i + 1,
                    0,
                    TlMode::Capture(
                        CapSt {
                            kind: st.kind,
                            name: st.name,
                            args: st.args,
                            ret: st.ret,
                            start_ln: st.start_ln,
                            temp: Seq::empty(),
                            body: st.body.push(st.temp),
                        },
                    ),
                    round,
                    square,
                    braces,
                    toks,
                    errs,
                ),
            }
        } else {
            let f = L[j];
            match mode {
                TlMode::Capture(st) => {
                    if f == "{"@ {
                        tl_from(
                            lines,
                            i,
                            j + 1,
                            TlMode::Capture(
                                CapSt {
                                    kind: st.kind,
                                    name: st.name,
                                    args: st.args,
                                    ret: st.ret,
                                    start_ln: st.start_ln,
                                    temp: st.temp.push(f),
                                    body: st.body,
                                },
                            ),
                            round,
                            square,
                            braces + 1,
                            toks,
                            errs,
                        )
                    } else if f == "}"@ {
                        if braces == 1 {
                            tl_from(
                                lines,
                                i,
                                j + 1,
                                TlMode::Scan(FunctionType::Function),
                                round,
                                square,
                                0,
                                toks.push(fn_token_of(st, st.body.push(st.temp))),
                                errs,
                            )
                        } else {
                            tl_from(
                                lines,
                                i,
                                j + 1,
                                TlMode::Capture(
                                    CapSt {
                                        kind: st.kind,
                                        name: st.name,
                                        args: st.args,
                                        ret: st.ret,
                                        start_ln: st.start_ln,
                                        temp: st.temp.push(f),
                                        body: st.body,
                                    },
                                ),
                                round,
                                square,
                                braces - 1,
                                toks,
                                errs,
                            )
                        }
                    } else {
                        tl_from(
                            lines,
                            i,
                            j + 1,
                            TlMode::Capture(
                                CapSt {
                                    kind: st.kind,
                                    name: st.name,
                                    args: st.args,
                                    ret: st.ret,
                                    start_ln: st.start_ln,
                                    temp: st.temp.push(f),
                                    body: st.body,
                                },
                            ),
                            round,
                            square,
                            braces,
                            toks,
                            errs,
                        )
                    }
                },
                TlMode::Scan(pending) => {
                    if f == "loop"@ {
                        tl_from(
                            lines,
                            i,
                            j + 1,
                            TlMode::Scan(FunctionType::Loop),
                            round,
                            square,
                            braces,
                            toks,
                            errs,
                        )
                    } else if f == "gen"@ {
                        tl_from(
                            lines,
                            i,
                            j + 1,
                            TlMode::Scan(FunctionType::Generator),
                            round,
                            square,
                            braces,
                            toks,
                            errs,
                        )
                    } else if f == "fn"@ {
                        // all three bracket counters reset here
                        match parse_sig(L, j, ln) {
                            SigRes::NextLine { errs: e, round: r } => tl_from(
                                lines,
                                i + 1,
                                0,
                                TlMode::Scan(pending),
                                r,
                                0,
                                0,
                                toks,
                                errs + e,
                            ),
                            SigRes::Resume { errs: e, off, round: r } => {
                                let nj = if j + 1 + off <= L.len() {
                                    j + 1 + off
                                } else {
                                    L.len() as int
                                };
                                tl_from(lines, i, nj, TlMode::Scan(pending), r, 0, 0, toks, errs + e)
                            },
                            SigRes::Enter { errs: e, name, args, ret, off, round: r } => {
                                let nj = if j + 1 + off <= L.len() {
                                    j + 1 + off
                                } else {
                                    L.len() as int
                                };
                                tl_from(
                                    lines,
                                    i,
                                    nj,
                                    TlMode::Capture(
                                        CapSt {
                                            kind: pending,
                                            name,
                                            args,
                                            ret,
                                            start_ln: ln,
                                            temp: Seq::empty(),
                                            body: Seq::empty(),
                                        },
                                    ),
                                    r,
                                    0,
                                    1,
                                    toks,
                                    errs + e,
                                )
                            },
                        }
                    } else if f == "//"@ {
                        tl_from(
                            lines,
                            i + 1,
                            0,
                            TlMode::Scan(pending),
                            round,
                            square,
                            braces,
                            toks.push(
                                TokV::Comment(join_spaced(L.subrange(j + 1, L.len() as int))),
                            ),
                            errs,
                        )
                    } else if f == "const"@ || f == "global"@ {
                        if L.len() <= j + 2 {
                            tl_from(
                                lines,
                                i + 1,
                                0,
                                TlMode::Scan(pending),
                                round,
                                square,
                                braces,
                                toks,
                                errs.push((ln, MSG_WRONG_SYNTAX@)),
                            )
                        } else if L[j + 2] != "="@ {
                            tl_from(
                                lines,
                                i,
                                j + 3,
                                TlMode::Scan(pending),
                                round,
                                square,
                                braces,
                                toks,
                                errs.push((ln, MSG_EXPECTED_EQ@)),
                            )
                        } else {
                            let run = L.subrange(j + 3, L.len() as int);
                            if unbalanced_sq(run) {
                                tl_from(
                                    lines,
                                    i + 1,
                                    0,
                                    TlMode::Scan(pending),
                                    round,
                                    square,
                                    braces,
                                    toks,
                                    errs.push((ln, MSG_MULTILINE_ARRAY@)),
                                )
                            } else {
                                let lv = LetV { name: L[j + 1], exp: expression_of(run) };
                                let tok = if f == "const"@ {
                                    TokV::Const(lv)
                                } else {
                                    TokV::Global(lv)
                                };
                                tl_from(
                                    lines,
                                    i + 1,
                                    0,
                                    TlMode::Scan(pending),
                                    round,
                                    square,
                                    braces,
                                    toks.push(tok),
                                    errs,
                                )
                            }
                        }
                    } else if f == "#"@ {
                        if L.len() <= j + 1 {
                            tl_from(
                                lines,
                                i,
                                j + 1,
                                TlMode::Scan(pending),
                                round,
                                square,
                                braces,
                                toks,
                                errs.push((ln, MSG_EXPECTED_SOMETHING@)),
                            )
                        } else if L[j + 1] == "include"@ {
                            if L.len() <= j + 2 {
                                tl_from(
                                    lines,
                                    i,
                                    j + 2,
                                    TlMode::Scan(pending),
                                    round,
                                    square,
                                    braces,
                                    toks,
                                    errs.push((ln, MSG_EXPECTED_PATH@)),
                                )
                            } else {
                                tl_from(
                                    lines,
                                    i,
                                    j + 3,
                                    TlMode::Scan(pending),
                                    round,
                                    square,
                                    braces,
                                    toks.push(TokV::CImport(L[j + 2])),
                                    errs,
                                )
                            }
                        } else {
                            tl_from(
                                lines,
                                i,
                                j + 2,
                                TlMode::Scan(pending),
                                round,
                                square,
                                braces,
                                toks,
                                errs.push((ln, MSG_UNIMPLEMENTED@)),
                            )
                        }
                    } else if f.len() == 0 {
                        tl_from(
                            lines,
                            i,
                            j + 1,
                            TlMode::Scan(pending),
                            round,
                            square,
                            braces,
                            toks,
                            errs,
                        )
                    } else {
                        tl_from(
                            lines,
                            i,
                            j + 1,
                            TlMode::Scan(pending),
                            round,
                            square,
                            braces,
                            toks.push(TokV::Unknown(f)),
                            errs.push((ln, MSG_UNEXPECTED_TOKEN@)),
                        )
                    }
                },
            }
        }
    }
}

/// The full top-level scan of a fragment table, from a fresh scanner.
pub open spec fn tl_result(lines: Seq<Seq<Seq<char>>>) -> TlRes {
    tl_from(
        lines,
        0,
        0,
        TlMode::Scan(FunctionType::Function),
        0,
        0,
        0,
        Seq::empty(),
        Seq::empty(),
    )
}

/// The diagnostics of the character tokenizer itself: only the degenerate
/// zero-line input is reported.
pub open spec fn gs_errs(code: Seq<char>) -> Seq<(int, Seq<char>)> {
    if lines_of(code).len() == 0 {
        seq![(0int, MSG_PROVIDE_CODE@)]
    } else {
        Seq::empty()
    }
}

// ---------------------------------------------------------------------
// Statement-level scanner
// ---------------------------------------------------------------------
/// The outcome of the statement-level scan: the finalized lines, the
/// diagnostics, and the final bracket counters.
pub struct LlRes {
    pub lines: Seq<LineV>,
    pub errs: Seq<(int, Seq<char>)>,
    pub round: int,
    pub square: int,
    pub braces: int,
}

/// One fragment (or line boundary) at a time, the statement-level scan of
/// a captured body. `id` is the function's identity value; every control
/// token carries the pair `(id + level, level)`, where the level is the
/// relevant depth counter at emission (brace depth after the increment for
/// `if` / `else if` / `for` / `loop`, before it for `else`, and before the
/// decrement for `}` and closing brackets). A line with no fragments is
/// skipped entirely; every other line yields one Line record holding its
/// tokens and its fragment-joined text.
pub open spec fn ll_from(
    lines: Seq<Seq<Seq<char>>>,
    i: int,
    j: int,
    id: int,
    start_ln: int,
    round: int,
    square: int,
    braces: int,
    cur: Seq<TokV>,
    out: Seq<LineV>,
    errs: Seq<(int, Seq<char>)>,
) -> LlRes
    decreases lines.len() - i, rem_in_line(lines, i, j),
{
    if i < 0 || i >= lines.len() {
        LlRes { lines: out, errs, round, square, braces }
    } else {
        let L = lines[i];
        let ln = start_ln + i;
        if L.len() == 0 {
            ll_from(lines, i + 1, 0, id, start_ln, round, square, braces, cur, out, errs)
        } else if j >= L.len() {
            ll_from(
                lines,
                i + 1,
                0,
                id,
                start_ln,
                round,
                square,
                braces,
                Seq::empty(),
                out.push(LineV { tokens: cur, as_string: join_spaced(L) }),
                errs,
            )
        } else {
            let f = L[j];
            let e = L.len() as int;
            if f == "let"@ {
                if L.len() <= j + 2 {
                    ll_from(lines, i, e, id, start_ln, round, square, braces, cur, out, errs.push(
                        (ln, MSG_WRONG_SYNTAX@),
                    ))
                } else if L[j + 2] != "="@ {
                    ll_from(
                        lines,
                        i,
                        j + 3,
                        id,
                        start_ln,
                        round,
                        square,
                        braces,
                        cur,
                        out,
                        errs.push((ln, MSG_EXPECTED_EQ@)),
                    )
                } else {
                    let run = L.subrange(j + 3, e);
                    if unbalanced_sq(run) {
                        ll_from(
                            lines,
                            i,
                            e,
                            id,
                            start_ln,
                            round,
                            square,
                            braces,
                            cur,
                            out,
                            errs.push((ln, MSG_MULTILINE_ARRAY@)),
                        )
                    } else {
                        ll_from(
                            lines,
                            i,
                            e,
                            id,
                            start_ln,
                            round,
                            square,
                            braces,
                            cur.push(TokV::Var(LetV { name: L[j + 1], exp: expression_of(run) })),
                            out,
                            errs,
                        )
                    }
                }
            } else if f == "if"@ {
                let k = j + 1 + find_off(L, j + 1, "{"@);
                if k >= L.len() {
                    ll_from(lines, i, e, id, start_ln, round, square, braces, cur, out, errs.push(
                        (ln, MSG_EXPECTED_OPEN_BRACE@),
                    ))
                } else {
                    let cond = L.subrange(j + 1, k);
                    if cond.len() == 0 {
                        ll_from(
                            lines,
                            i,
                            k + 1,
                            id,
                            start_ln,
                            round,
                            square,
                            braces + 1,
                            cur,
                            out,
                            errs.push((ln, MSG_EXPECTED_CONDITION@)),
                        )
                    } else {
                        ll_from(
                            lines,
                            i,
                            k + 1,
                            id,
                            start_ln,
                            round,
                            square,
                            braces + 1,
                            cur.push(
                                TokV::If(
                                    IfV {
                                        condition: expression_of(cond),
                                        id: id + braces + 1,
                                        level: braces + 1,
                                    },
                                ),
                            ),
                            out,
                            errs,
                        )
                    }
                }
            } else if f == "else"@ {
                if L.len() <= j + 1 {
                    ll_from(
                        lines,
                        i,
                        j + 1,
                        id,
                        start_ln,
                        round,
                        square,
                        braces,
                        cur,
                        out,
                        errs.push((ln, MSG_EXPECTED_BRACE_OR_IF@)),
                    )
                } else if L[j + 1] == "if"@ {
                    let k = j + 2 + find_off(L, j + 2, "{"@);
                    if k >= L.len() {
                        ll_from(
                            lines,
                            i,
                            e,
                            id,
                            start_ln,
                            round,
                            square,
                            braces,
                            cur,
                            out,
                            errs.push((ln, MSG_EXPECTED_OPEN_BRACE@)),
                        )
                    } else {
                        let cond = L.subrange(j + 2, k);
                        if cond.len() == 0 {
                            ll_from(
                                lines,
                                i,
                                k + 1,
                                id,
                                start_ln,
                                round,
                                square,
                                braces + 1,
                                cur,
                                out,
                                errs.push((ln, MSG_EXPECTED_CONDITION@)),
                            )
                        } else {
                            ll_from(
                                lines,
                                i,
                                k + 1,
                                id,
                                start_ln,
                                round,
                                square,
                                braces + 1,
                                cur.push(
                                    TokV::ElseIf(
                                        IfV {
                                            condition: expression_of(cond),
                                            id: id + braces + 1,
                                            level: braces + 1,
                                        },
                                    ),
                                ),
                                out,
                                errs,
                            )
                        }
                    }
                } else if L[j + 1] == "{"@ {
                    ll_from(
                        lines,
                        i,
                        j + 2,
                        id,
                        start_ln,
                        round,
                        square,
                        braces + 1,
                        cur.push(TokV::Else(ElseV { id: id + braces, level: braces })),
                        out,
                        errs,
                    )
                } else {
                    ll_from(
                        lines,
                        i,
                        j + 2,
                        id,
                        start_ln,
                        round,
                        square,
                        braces,
                        cur,
                        out,
                        errs.push((ln, MSG_EXPECTED_BRACE_OR_IF@)),
                    )
                }
            } else if f == "for"@ {
                if L.len() <= j + 1 {
                    ll_from(
                        lines,
                        i,
                        j + 1,
                        id,
                        start_ln,
                        round,
                        square,
                        braces,
                        cur,
                        out,
                        errs.push((ln, MSG_EXPECTED_VAR_NAME@)),
                    )
                } else if L.len() > j + 2 && L[j + 2] == "in"@ {
                    let k = j + 3 + find_off(L, j + 3, "{"@);
                    if k >= L.len() {
                        ll_from(
                            lines,
                            i,
                            e,
                            id,
                            start_ln,
                            round,
                            square,
                            braces,
                            cur,
                            out,
                            errs.push((ln, MSG_EXPECTED_OPEN_BRACE@)),
                        )
                    } else {
                        let iter = L.subrange(j + 3, k);
                        if iter.len() == 0 {
                            ll_from(
                                lines,
                                i,
                                k + 1,
                                id,
                                start_ln,
                                round,
                                square,
                                braces + 1,
                                cur,
                                out,
                                errs.push((ln, MSG_EXPECTED_ITER@)),
                            )
                        } else {
                            ll_from(
                                lines,
                                i,
                                k + 1,
                                id,
                                start_ln,
                                round,
                                square,
                                braces + 1,
                                cur.push(
                                    TokV::For(
                                        ForV {
                                            id: id + braces + 1,
                                            level: braces + 1,
                                            var_name: L[j + 1],
                                            iter_exp: expression_of(iter),
                                        },
                                    ),
                                ),
                                out,
                                errs,
                            )
                        }
                    }
                } else {
                    let nj = if L.len() > j + 2 {
                        j + 3
                    } else {
                        j + 2
                    };
                    ll_from(lines, i, nj, id, start_ln, round, square, braces, cur, out, errs.push(
                        (ln, MSG_EXPECTED_IN@),
                    ))
                }
            } else if f == "}"@ {
                ll_from(
                    lines,
                    i,
                    j + 1,
                    id,
                    start_ln,
                    round,
                    square,
                    braces - 1,
                    cur.push(TokV::End(BrV { id: id + braces, level: braces })),
                    out,
                    errs,
                )
            } else if f == "["@ {
                ll_from(
                    lines,
                    i,
                    j + 1,
                    id,
                    start_ln,
                    round,
                    square + 1,
                    braces,
                    cur.push(TokV::OpenSqBr(BrV { id: id + square, level: square })),
                    out,
                    errs,
                )
            } else if f == "]"@ {
                ll_from(
                    lines,
                    i,
                    j + 1,
                    id,
                    start_ln,
                    round,
                    square - 1,
                    braces,
                    cur.push(TokV::CloseSqBr(BrV { id: id + square, level: square })),
                    out,
                    errs,
                )
            } else if f == "("@ {
                ll_from(
                    lines,
                    i,
                    j + 1,
                    id,
                    start_ln,
                    round + 1,
                    square,
                    braces,
                    cur.push(TokV::OpenRoBr(BrV { id: id + round, level: round })),
                    out,
                    errs,
                )
            } else if f == ")"@ {
                ll_from(
                    lines,
                    i,
                    j + 1,
                    id,
                    start_ln,
                    round - 1,
                    square,
                    braces,
                    cur.push(TokV::CloseRoBr(BrV { id: id + round, level: round })),
                    out,
                    errs,
                )
            } else if f == ","@ {
                ll_from(
                    lines,
                    i,
                    j + 1,
                    id,
                    start_ln,
                    round,
                    square,
                    braces,
                    cur.push(TokV::Comma),
                    out,
                    errs,
                )
            } else if f == "loop"@ {
                if L.len() <= j + 1 {
                    ll_from(lines, i, j + 1, id, start_ln, round, square, braces, cur, out, errs)
                } else if L[j + 1] == "{"@ {
                    ll_from(
                        lines,
                        i,
                        j + 2,
                        id,
                        start_ln,
                        round,
                        square,
                        braces + 1,
                        cur.push(TokV::Loop(LoopV { id: braces + 1 })),
                        out,
                        errs,
                    )
                } else {
                    ll_from(
                        lines,
                        i,
                        j + 2,
                        id,
                        start_ln,
                        round,
                        square,
                        braces,
                        cur,
                        out,
                        errs.push((ln, MSG_EXPECTED_OPEN_BRACE@)),
                    )
                }
            } else if f.len() == 0 {
                ll_from(lines, i, j + 1, id, start_ln, round, square, braces, cur, out, errs)
            } else if f == "yield"@ {
                if L.len() > j + 1 {
                    ll_from(
                        lines,
                        i,
                        e,
                        id,
                        start_ln,
                        round,
                        square,
                        braces,
                        cur.push(TokV::Yield(expression_of(L.subrange(j + 1, e)))),
                        out,
                        errs,
                    )
                } else {
                    ll_from(
                        lines,
                        i,
                        j + 1,
                        id,
                        start_ln,
                        round,
                        square,
                        braces,
                        cur,
                        out,
                        errs.push((ln, MSG_EXPECTED_EXP_YIELD@)),
                    )
                }
            } else if f == "return"@ {
                if L.len() > j + 1 {
                    ll_from(
                        lines,
                        i,
                        e,
                        id,
                        start_ln,
                        round,
                        square,
                        braces,
                        cur.push(TokV::Return(expression_of(L.subrange(j + 1, e)))),
                        out,
                        errs,
                    )
                } else {
                    ll_from(
                        lines,
                        i,
                        j + 1,
                        id,
                        start_ln,
                        round,
                        square,
                        braces,
                        cur,
                        out,
                        errs.push((ln, MSG_EXPECTED_EXP_RETURN@)),
                    )
                }
            } else {
                if L.len() > j + 1 && L[j + 1] == "="@ {
                    if L.len() > j + 2 {
                        ll_from(
                            lines,
                            i,
                            e,
                            id,
                            start_ln,
                            round,
                            square,
                            braces,
                            cur.push(
                                TokV::Assign(
                                    AssignV { var: f, exp: expression_of(L.subrange(j + 2, e)) },
                                ),
                            ),
                            out,
                            errs,
                        )
                    } else {
                        ll_from(
                            lines,
                            i,
                            j + 2,
                            id,
                            start_ln,
                            round,
                            square,
                            braces,
                            cur,
                            out,
                            errs.push((ln, MSG_EXPECTED_EXP_ASSIGN@)),
                        )
                    }
                } else {
                    ll_from(
                        lines,
                        i,
                        j + 1,
                        id,
                        start_ln,
                        round,
                        square,
                        braces,
                        cur.push(TokV::Generic(f)),
                        out,
                        errs,
                    )
                }
            }
        }
    }
}

/// The full statement-level scan of a captured body, from counters at zero.
pub open spec fn ll_result(lines: Seq<Seq<Seq<char>>>, start_ln: int, id: int) -> LlRes {
    ll_from(
        lines,
        0,
        0,
        id,
        start_ln,
        0,
        0,
        0,
        Seq::empty(),
        Seq::empty(),
        Seq::empty(),
    )
}

// ---------------------------------------------------------------------
// Finalizing the provisional stream
// ---------------------------------------------------------------------
/// The outcome of the finalizing pass over the provisional list.
pub struct FinRes {
    pub toks: Seq<TokV>,
    pub errs: Seq<(int, Seq<char>)>,
    pub next_id: int,
    pub round: int,
    pub square: int,
    pub braces: int,
}

/// Walk the provisional list: each function-kind token has its raw body
/// run through the statement-level scanner, with identity values drawn
/// from a deterministic counter (one per function, in order); every other
/// token passes through unchanged.
pub open spec fn finalize_from(
    toks: Seq<TokV>,
    k: int,
    id: int,
    acc: Seq<TokV>,
    errs: Seq<(int, Seq<char>)>,
    round: int,
    square: int,
    braces: int,
) -> FinRes
    decreases toks.len() - k,
{
    if k < 0 || k >= toks.len() {
        FinRes { toks: acc, errs, next_id: id, round, square, braces }
    } else {
        match toks[k] {
            TokV::Function(f) => {
                let r = ll_result(f.tmp_lines, f.start_ln, id);
                finalize_from(
                    toks,
                    k + 1,
                    id + 1,
                    acc.push(
                        TokV::Function(
                            FunV {
                                name: f.name,
                                arguments: f.arguments,
                                return_type: f.return_type,
                                lines: r.lines,
                                tmp_lines: f.tmp_lines,
                                start_ln: f.start_ln,
                            },
                        ),
                    ),
                    errs + r.errs,
                    r.round,
                    r.square,
                    r.braces,
                )
            },
            TokV::LoopFunction(f) => {
                let r = ll_result(f.tmp_lines, f.start_ln, id);
                finalize_from(
                    toks,
                    k + 1,
                    id + 1,
                    acc.push(
                        TokV::LoopFunction(
                            FunV {
                                name: f.name,
                                arguments: f.arguments,
                                return_type: f.return_type,
                                lines: r.lines,
                                tmp_lines: f.tmp_lines,
                                start_ln: f.start_ln,
                            },
                        ),
                    ),
                    errs + r.errs,
                    r.round,
                    r.square,
                    r.braces,
                )
            },
            TokV::GeneratorFunction(f) => {
                let r = ll_result(f.tmp_lines, f.start_ln, id);
                finalize_from(
                    toks,
                    k + 1,
                    id + 1,
                    acc.push(
                        TokV::GeneratorFunction(
                            FunV {
                                name: f.name,
                                arguments: f.arguments,
                                return_type: f.return_type,
                                lines: r.lines,
                                tmp_lines: f.tmp_lines,
                                start_ln: f.start_ln,
                            },
                        ),
                    ),
                    errs + r.errs,
                    r.round,
                    r.square,
                    r.braces,
                )
            },
            t => finalize_from(toks, k + 1, id, acc.push(t), errs, round, square, braces),
        }
    }
}

/// Like `finalize_from`, but with the functions' identity values supplied
/// as a sequence consumed from the front — the shape a caller needs when
/// the values are drawn one by one from an outside source. A missing
/// value falls back to zero.
pub open spec fn finalize_with(
    toks: Seq<TokV>,
    k: int,
    ids: Seq<int>,
    acc: Seq<TokV>,
    errs: Seq<(int, Seq<char>)>,
    round: int,
    square: int,
    braces: int,
) -> FinRes
    decreases toks.len() - k,
{
    if k < 0 || k >= toks.len() {
        FinRes { toks: acc, errs, next_id: ids.len() as int, round, square, braces }
    } else {
        match toks[k] {
            TokV::Function(f) => {
                let id = if ids.len() > 0 {
                    ids[0]
                } else {
                    0int
                };
                let r = ll_result(f.tmp_lines, f.start_ln, id);
                finalize_with(
                    toks,
                    k + 1,
                    if ids.len() > 0 {
                        ids.drop_first()
                    } else {
                        ids
                    },
                    acc.push(
                        TokV::Function(
                            FunV {
                                name: f.name,
                                arguments: f.arguments,
                                return_type: f.return_type,
                                lines: r.lines,
                                tmp_lines: f.tmp_lines,
                                start_ln: f.start_ln,
                            },
                        ),
                    ),
                    errs + r.errs,
                    r.round,
                    r.square,
                    r.braces,
                )
            },
            TokV::LoopFunction(f) => {
                let id = if ids.len() > 0 {
                    ids[0]
                } else {
                    0int
                };
                let r = ll_result(f.tmp_lines, f.start_ln, id);
                finalize_with(
                    toks,
                    k + 1,
                    if ids.len() > 0 {
                        ids.drop_first()
                    } else {
                        ids
                    },
                    acc.push(
                        TokV::LoopFunction(
                            FunV {
                                name: f.name,
                                arguments: f.arguments,
                                return_type: f.return_type,
                                lines: r.lines,
                                tmp_lines: f.tmp_lines,
                                start_ln: f.start_ln,
                            },
                        ),
                    ),
                    errs + r.errs,
                    r.round,
                    r.square,
                    r.braces,
                )
            },
            TokV::GeneratorFunction(f) => {
                let id = if ids.len() > 0 {
                    ids[0]
                } else {
                    0int
                };
                let r = ll_result(f.tmp_lines, f.start_ln, id);
                finalize_with(
                    toks,
                    k + 1,
                    if ids.len() > 0 {
                        ids.drop_first()
                    } else {
                        ids
                    },
                    acc.push(
                        TokV::GeneratorFunction(
                            FunV {
                                name: f.name,
                                arguments: f.arguments,
                                return_type: f.return_type,
                                lines: r.lines,
                                tmp_lines: f.tmp_lines,
                                start_ln: f.start_ln,
                            },
                        ),
                    ),
                    errs + r.errs,
                    r.round,
                    r.square,
                    r.braces,
                )
            },
            t => finalize_with(toks, k + 1, ids, acc.push(t), errs, round, square, braces),
        }
    }
}

/// The whole pipeline on one source text, from a fresh lexer: tokenize,
/// scan the top level, then finalize every captured function body.
pub open spec fn pipeline_result(code: Seq<char>) -> FinRes {
    let tl = tl_result(strings_of(code));
    finalize_from(tl.toks, 0, 0, Seq::empty(), tl.errs, tl.round, tl.square, tl.braces)
}

/// The finalizing pass as `parse` runs it: over the whole provisional
/// list (tokens already present before the call included), with the
/// deterministic identity counter starting at zero.
pub open spec fn parse_fin(code: Seq<char>, prior: Seq<TokV>) -> FinRes {
    let tl = tl_result(strings_of(code));
    finalize_from(
        prior + tl.toks,
        0,
        0,
        Seq::empty(),
        Seq::empty(),
        tl.round,
        tl.square,
        tl.braces,
    )
}

// ---------------------------------------------------------------------
// Counting lemmas
// ---------------------------------------------------------------------
/// Fragment counts are never negative.
pub proof fn lemma_count_tail_nonneg(lines: Seq<Seq<Seq<char>>>, i: int)
    ensures
        count_tail(lines, i) >= 0,
    decreases lines.len() - i,
{
    if 0 <= i && i < lines.len() {
        lemma_count_tail_nonneg(lines, i + 1);
    }
}

/// Later tails count no more fragments than the whole table.
pub proof fn lemma_count_tail_mono(lines: Seq<Seq<Seq<char>>>, i: int)
    requires
        0 <= i,
    ensures
        count_tail(lines, i) <= count_all(lines),
    decreases i,
{
    if i > 0 {
        lemma_count_tail_mono(lines, i - 1);
        if i - 1 < lines.len() {
            assert(count_tail(lines, i - 1) == lines[i - 1].len() + count_tail(lines, i));
        }
    }
}

/// Appending a line adds exactly its fragments to the count.
proof fn lemma_count_tail_push(xs: Seq<Seq<Seq<char>>>, x: Seq<Seq<char>>, k: int)
    requires
        0 <= k <= xs.len(),
    ensures
        count_tail(xs.push(x), k) == count_tail(xs, k) + x.len(),
    decreases xs.len() - k,
{
    if k < xs.len() {
        assert(xs.push(x)[k] == xs[k]);
        lemma_count_tail_push(xs, x, k + 1);
        assert(count_tail(xs.push(x), k) == xs[k].len() + count_tail(xs.push(x), k + 1));
        assert(count_tail(xs, k) == xs[k].len() + count_tail(xs, k + 1));
    } else {
        assert(xs.push(x)[k] == x);
        assert(count_tail(xs.push(x), k) == x.len() + count_tail(xs.push(x), k + 1));
        assert(count_tail(xs.push(x), k + 1) == 0);
        assert(count_tail(xs, k) == 0);
    }
}

pub proof fn lemma_count_all_push(xs: Seq<Seq<Seq<char>>>, x: Seq<Seq<char>>)
    ensures
        count_all(xs.push(x)) == count_all(xs) + x.len(),
{
    lemma_count_tail_push(xs, x, 0);
}

/// Total characters of a line table.
pub open spec fn sum_lens(ls: Seq<Seq<char>>) -> int
    decreases ls.len(),
{
    if ls.len() == 0 {
        0
    } else {
        ls[0].len() + sum_lens(ls.drop_first())
    }
}

proof fn lemma_count_tail_drop_first(ys: Seq<Seq<Seq<char>>>, m: int)
    requires
        0 <= m,
        ys.len() >= 1,
    ensures
        count_tail(ys, m + 1) == count_tail(ys.drop_first(), m),
    decreases ys.len() - m,
{
    if m + 1 < ys.len() {
        assert(ys.drop_first()[m] == ys[m + 1]);
        lemma_count_tail_drop_first(ys, m + 1);
    }
}

/// A line's fragment count is at most its character count plus one (plus
/// one more for a pending nonempty buffer).
proof fn lemma_frags_from_len(l: Seq<char>, buf: Seq<char>)
    ensures
        frags_from(l, buf).len() <= l.len() + 1 + (if buf.len() > 0 {
            1int
        } else {
            0int
        }),
    decreases l.len(),
{
    if l.len() > 0 {
        let c = l[0];
        let rest = l.drop_first();
        if c == ' ' {
            lemma_frags_from_len(rest, Seq::empty());
        } else if c == '/' {
            if rest.len() > 0 && rest[0] == '/' {
                lemma_frags_from_len(rest.drop_first(), Seq::empty());
            } else {
                lemma_frags_from_len(rest, Seq::empty());
            }
        } else if is_delim(c) {
            lemma_frags_from_len(rest, Seq::empty());
        } else {
            lemma_frags_from_len(rest, buf.push(c));
        }
    }
}

/// A source has at most one line per character, plus one.
proof fn lemma_lines_from_len(s: Seq<char>, cur: Seq<char>)
    ensures
        lines_from(s, cur).len() <= s.len() + 1,
    decreases s.len(),
{
    if s.len() > 0 {
        if s[0] == '\n' {
            lemma_lines_from_len(s.drop_first(), Seq::empty());
        } else {
            lemma_lines_from_len(s.drop_first(), cur.push(s[0]));
        }
    }
}

/// Splitting does not create characters.
proof fn lemma_sum_lines(s: Seq<char>, cur: Seq<char>)
    ensures
        sum_lens(lines_from(s, cur)) <= s.len() + cur.len(),
    decreases s.len(),
{
    if s.len() == 0 {
        if cur.len() > 0 {
            let ls = lines_from(s, cur);
            assert(ls.drop_first() =~= Seq::<Seq<char>>::empty());
            assert(ls[0] == strip_cr(cur));
            assert(strip_cr(cur).len() <= cur.len());
            assert(sum_lens(ls) == ls[0].len() + sum_lens(ls.drop_first()));
            assert(sum_lens(ls.drop_first()) == 0);
        }
    } else {
        if s[0] == '\n' {
            lemma_sum_lines(s.drop_first(), Seq::empty());
            let ls = lines_from(s, cur);
            assert(ls[0] == strip_cr(cur));
            assert(strip_cr(cur).len() <= cur.len());
            assert(ls.drop_first() =~= lines_from(s.drop_first(), Seq::empty()));
            assert(sum_lens(ls) == ls[0].len() + sum_lens(ls.drop_first()));
        } else {
            lemma_sum_lines(s.drop_first(), cur.push(s[0]));
        }
    }
}

/// Fragmenting a line table yields at most one fragment per character
/// plus one per line.
proof fn lemma_count_of_map(ls: Seq<Seq<char>>)
    ensures
        count_all(ls.map(|i: int, l: Seq<char>| frags_of_line(l))) <= sum_lens(ls) + ls.len(),
    decreases ls.len(),
{
    let m = |i: int, l: Seq<char>| frags_of_line(l);
    if ls.len() == 0 {
        assert(ls.map(m).len() == 0);
    } else {
        lemma_count_of_map(ls.drop_first());
        assert(ls.map(m).drop_first() =~= ls.drop_first().map(m));
        lemma_count_tail_drop_first(ls.map(m), 0);
        assert(ls.map(m)[0] == frags_of_line(ls[0]));
        lemma_frags_from_len(ls[0], Seq::empty());
    }
}

/// The fragment table of a source text holds at most two fragments per
/// character plus one, over at most one line per character plus one.
pub proof fn lemma_strings_count(code: Seq<char>)
    ensures
        count_all(strings_of(code)) <= 2 * code.len() + 1,
        strings_of(code).len() <= code.len() + 1,
{
    lemma_lines_from_len(code, Seq::empty());
    lemma_sum_lines(code, Seq::empty());
    lemma_count_of_map(lines_of(code));
}

// ---------------------------------------------------------------------
// Size bounds on provisional tokens
// ---------------------------------------------------------------------
/// The size facts the statement-level scanner needs of a provisional
/// function token: a sane header line and a body no larger than the
/// bounds.
pub open spec fn provisional_ok(t: TokV, frag_bound: int, line_bound: int) -> bool {
    match t {
        TokV::Function(f) => 0 <= f.start_ln <= line_bound && count_all(f.tmp_lines)
            <= frag_bound && f.tmp_lines.len() <= line_bound,
        TokV::LoopFunction(f) => 0 <= f.start_ln <= line_bound && count_all(f.tmp_lines)
            <= frag_bound && f.tmp_lines.len() <= line_bound,
        TokV::GeneratorFunction(f) => 0 <= f.start_ln <= line_bound && count_all(f.tmp_lines)
            <= frag_bound && f.tmp_lines.len() <= line_bound,
        _ => true,
    }
}

/// Every provisional token the top-level scan emits fits the input: a
/// captured body never holds more fragments than the source table, nor
/// more lines than the table plus one, and header line numbers stay within
/// the table; and no more tokens are emitted than fragments remain, plus
/// one.
#[verifier::rlimit(100)]
#[verifier::spinoff_prover]
pub proof fn lemma_tl_sizes(
    lines: Seq<Seq<Seq<char>>>,
    i: int,
    j: int,
    mode: TlMode,
    round: int,
    square: int,
    braces: int,
    toks: Seq<TokV>,
    errs: Seq<(int, Seq<char>)>,
)
    requires
        0 <= i,
        0 <= j,
        i < lines.len() ==> j <= lines[i].len(),
        forall|k: int|
            0 <= k < toks.len() ==> provisional_ok(
                #[trigger] toks[k],
                count_all(lines),
                lines.len() + 1int,
            ),
        mode matches TlMode::Capture(st) ==> {
            &&& count_all(st.body) + st.temp.len() + count_from(lines, i, j) <= count_all(lines)
            &&& st.body.len() <= i
            &&& 0 <= st.start_ln <= lines.len() + 1
        },
    ensures
        tl_from(lines, i, j, mode, round, square, braces, toks, errs).toks.len() <= toks.len()
            + count_from(lines, i, j) + 1,
        forall|k: int|
            0 <= k < tl_from(lines, i, j, mode, round, square, braces, toks, errs).toks.len()
                ==> provisional_ok(
                #[trigger] tl_from(lines, i, j, mode, round, square, braces, toks, errs).toks[k],
                count_all(lines),
                lines.len() + 1int,
            ),
    decreases lines.len() - i, rem_in_line(lines, i, j),
{
    lemma_count_tail_nonneg(lines, i);
    lemma_count_tail_nonneg(lines, i + 1);
    lemma_count_tail_mono(lines, i);
    if i < lines.len() {
        assert(count_tail(lines, i) == lines[i].len() + count_tail(lines, i + 1));
    }
    if i >= lines.len() {
    } else {
        let L = lines[i];
        let ln = i + 1;
        if j >= L.len() {
            match mode {
                TlMode::Scan(_) => {
                    lemma_tl_sizes(lines, i + 1, 0, mode, round, square, braces, toks, errs);
                    assert(tl_from(lines, i, j, mode, round, square, braces, toks, errs)
                        == tl_from(lines, i + 1, 0, mode, round, square, braces, toks, errs));
                },
                TlMode::Capture(st) => {
                    let st2 = CapSt {
                        kind: st.kind,
                        name: st.name,
                        args: st.args,
                        ret: st.ret,
                        start_ln: st.start_ln,
                        temp: Seq::empty(),
                        body: st.body.push(st.temp),
                    };
                    lemma_count_all_push(st.body, st.temp);
                    lemma_tl_sizes(
                        lines,
                        i + 1,
                        0,
                        TlMode::Capture(st2),
                        round,
                        square,
                        braces,
                        toks,
                        errs,
                    );
                    assert(tl_from(lines, i, j, mode, round, square, braces, toks, errs)
                        == tl_from(
                        lines,
                        i + 1,
                        0,
                        TlMode::Capture(st2),
                        round,
                        square,
                        braces,
                        toks,
                        errs,
                    ));
                },
            }
        } else {
            let f = L[j];
            match mode {
                TlMode::Capture(st) => {
                    if f == "{"@ {
                        let st2 = CapSt {
                            kind: st.kind,
                            name: st.name,
                            args: st.args,
                            ret: st.ret,
                            start_ln: st.start_ln,
                            temp: st.temp.push(f),
                            body: st.body,
                        };
                        lemma_tl_sizes(
                            lines,
                            i,
                            j + 1,
                            TlMode::Capture(st2),
                            round,
                            square,
                            braces + 1,
                            toks,
                            errs,
                        );
                        assert(tl_from(lines, i, j, mode, round, square, braces, toks, errs)
                            == tl_from(
                            lines,
                            i,
                            j + 1,
                            TlMode::Capture(st2),
                            round,
                            square,
                            braces + 1,
                            toks,
                            errs,
                        ));
                    } else if f == "}"@ {
                        if braces == 1 {
                            let tok = fn_token_of(st, st.body.push(st.temp));
                            lemma_count_all_push(st.body, st.temp);
                            assert(provisional_ok(tok, count_all(lines), lines.len() + 1int));
                            let toks2 = toks.push(tok);
                            assert(forall|k: int|
                                0 <= k < toks2.len() ==> provisional_ok(
                                    #[trigger] toks2[k],
                                    count_all(lines),
                                    lines.len() + 1int,
                                ));
                            lemma_tl_sizes(
                                lines,
                                i,
                                j + 1,
                                TlMode::Scan(FunctionType::Function),
                                round,
                                square,
                                0,
                                toks2,
                                errs,
                            );
                            assert(tl_from(lines, i, j, mode, round, square, braces, toks, errs)
                                == tl_from(
                                lines,
                                i,
                                j + 1,
                                TlMode::Scan(FunctionType::Function),
                                round,
                                square,
                                0,
                                toks2,
                                errs,
                            ));
                        } else {
                            let st2 = CapSt {
                                kind: st.kind,
                                name: st.name,
                                args: st.args,
                                ret: st.ret,
                                start_ln: st.start_ln,
                                temp: st.temp.push(f),
                                body: st.body,
                            };
                            lemma_tl_sizes(
                                lines,
                                i,
                                j + 1,
                                TlMode::Capture(st2),
                                round,
                                square,
                                braces - 1,
                                toks,
                                errs,
                            );
                            assert(tl_from(lines, i, j, mode, round, square, braces, toks, errs)
                                == tl_from(
                                lines,
                                i,
                                j + 1,
                                TlMode::Capture(st2),
                                round,
                                square,
                                braces - 1,
                                toks,
                                errs,
                            ));
                        }
                    } else {
                        let st2 = CapSt {
                            kind: st.kind,
                            name: st.name,
                            args: st.args,
                            ret: st.ret,
                            start_ln: st.start_ln,
                            temp: st.temp.push(f),
                            body: st.body,
                        };
                        lemma_tl_sizes(
                            lines,
                            i,
                            j + 1,
                            TlMode::Capture(st2),
                            round,
                            square,
                            braces,
                            toks,
                            errs,
                        );
                        assert(tl_from(lines, i, j, mode, round, square, braces, toks, errs)
                            == tl_from(
                            lines,
                            i,
                            j + 1,
                            TlMode::Capture(st2),
                            round,
                            square,
                            braces,
                            toks,
                            errs,
                        ));
                    }
                },
                TlMode::Scan(pending) => {
                    if f == "loop"@ {
                        lemma_tl_sizes(
                            lines,
                            i,
                            j + 1,
                            TlMode::Scan(FunctionType::Loop),
                            round,
                            square,
                            braces,
                            toks,
                            errs,
                        );
                        assert(tl_from(lines, i, j, mode, round, square, braces, toks, errs)
                            == tl_from(
                            lines,
                            i,
                            j + 1,
                            TlMode::Scan(FunctionType::Loop),
                            round,
                            square,
                            braces,
                            toks,
                            errs,
                        ));
                    } else if f == "gen"@ {
                        lemma_tl_sizes(
                            lines,
                            i,
                            j + 1,
                            TlMode::Scan(FunctionType::Generator),
                            round,
                            square,
                            braces,
                            toks,
                            errs,
                        );
                        assert(tl_from(lines, i, j, mode, round, square, braces, toks, errs)
                            == tl_from(
                            lines,
                            i,
                            j + 1,
                            TlMode::Scan(FunctionType::Generator),
                            round,
                            square,
                            braces,
                            toks,
                            errs,
                        ));
                    } else if f == "fn"@ {
                        match parse_sig(L, j, ln) {
                            SigRes::NextLine { errs: e, round: r } => {
                                lemma_tl_sizes(
                                    lines,
                                    i + 1,
                                    0,
                                    TlMode::Scan(pending),
                                    r,
                                    0,
                                    0,
                                    toks,
                                    errs + e,
                                );
                                assert(tl_from(
                                    lines,
                                    i,
                                    j,
                                    mode,
                                    round,
                                    square,
                                    braces,
                                    toks,
                                    errs,
                                ) == tl_from(
                                    lines,
                                    i + 1,
                                    0,
                                    TlMode::Scan(pending),
                                    r,
                                    0,
                                    0,
                                    toks,
                                    errs + e,
                                ));
                            },
                            SigRes::Resume { errs: e, off, round: r } => {
                                let nj = if j + 1 + off <= L.len() {
                                    j + 1 + off
                                } else {
                                    L.len() as int
                                };
                                lemma_tl_sizes(
                                    lines,
                                    i,
                                    nj,
                                    TlMode::Scan(pending),
                                    r,
                                    0,
                                    0,
                                    toks,
                                    errs + e,
                                );
                                assert(tl_from(
                                    lines,
                                    i,
                                    j,
                                    mode,
                                    round,
                                    square,
                                    braces,
                                    toks,
                                    errs,
                                ) == tl_from(
                                    lines,
                                    i,
                                    nj,
                                    TlMode::Scan(pending),
                                    r,
                                    0,
                                    0,
                                    toks,
                                    errs + e,
                                ));
                            },
                            SigRes::Enter { errs: e, name, args, ret, off, round: r } => {
                                let nj = if j + 1 + off <= L.len() {
                                    j + 1 + off
                                } else {
                                    L.len() as int
                                };
                                let st = CapSt {
                                    kind: pending,
                                    name,
                                    args,
                                    ret,
                                    start_ln: ln,
                                    temp: Seq::empty(),
                                    body: Seq::empty(),
                                };
                                assert(count_all(st.body) == 0);
                                lemma_tl_sizes(
                                    lines,
                                    i,
                                    nj,
                                    TlMode::Capture(st),
                                    r,
                                    0,
                                    1,
                                    toks,
                                    errs + e,
                                );
                                assert(tl_from(
                                    lines,
                                    i,
                                    j,
                                    mode,
                                    round,
                                    square,
                                    braces,
                                    toks,
                                    errs,
                                ) == tl_from(
                                    lines,
                                    i,
                                    nj,
                                    TlMode::Capture(st),
                                    r,
                                    0,
                                    1,
                                    toks,
                                    errs + e,
                                ));
                            },
                        }
                    } else if f == "//"@ {
                        let toks2 = toks.push(
                            TokV::Comment(join_spaced(L.subrange(j + 1, L.len() as int))),
                        );
                        lemma_tl_sizes(
                            lines,
                            i + 1,
                            0,
                            TlMode::Scan(pending),
                            round,
                            square,
                            braces,
                            toks2,
                            errs,
                        );
                        assert(tl_from(lines, i, j, mode, round, square, braces, toks, errs)
                            == tl_from(
                            lines,
                            i + 1,
                            0,
                            TlMode::Scan(pending),
                            round,
                            square,
                            braces,
                            toks2,
                            errs,
                        ));
                    } else if f == "const"@ || f == "global"@ {
                        if L.len() <= j + 2 {
                            lemma_tl_sizes(
                                lines,
                                i + 1,
                                0,
                                TlMode::Scan(pending),
                                round,
                                square,
                                braces,
                                toks,
                                errs.push((ln, MSG_WRONG_SYNTAX@)),
                            );
                            assert(tl_from(lines, i, j, mode, round, square, braces, toks, errs)
                                == tl_from(
                                lines,
                                i + 1,
                                0,
                                TlMode::Scan(pending),
                                round,
                                square,
                                braces,
                                toks,
                                errs.push((ln, MSG_WRONG_SYNTAX@)),
                            ));
                        } else if L[j + 2] != "="@ {
                            lemma_tl_sizes(
                                lines,
                                i,
                                j + 3,
                                TlMode::Scan(pending),
                                round,
                                square,
                                braces,
                                toks,
                                errs.push((ln, MSG_EXPECTED_EQ@)),
                            );
                            assert(tl_from(lines, i, j, mode, round, square, braces, toks, errs)
                                == tl_from(
                                lines,
                                i,
                                j + 3,
                                TlMode::Scan(pending),
                                round,
                                square,
                                braces,
                                toks,
                                errs.push((ln, MSG_EXPECTED_EQ@)),
                            ));
                        } else {
                            let run = L.subrange(j + 3, L.len() as int);
                            if unbalanced_sq(run) {
                                lemma_tl_sizes(
                                    lines,
                                    i + 1,
                                    0,
                                    TlMode::Scan(pending),
                                    round,
                                    square,
                                    braces,
                                    toks,
                                    errs.push((ln, MSG_MULTILINE_ARRAY@)),
                                );
                                assert(tl_from(
                                    lines,
                                    i,
                                    j,
                                    mode,
                                    round,
                                    square,
                                    braces,
                                    toks,
                                    errs,
                                ) == tl_from(
                                    lines,
                                    i + 1,
                                    0,
                                    TlMode::Scan(pending),
                                    round,
                                    square,
                                    braces,
                                    toks,
                                    errs.push((ln, MSG_MULTILINE_ARRAY@)),
                                ));
                            } else {
                                let lv = LetV { name: L[j + 1], exp: expression_of(run) };
                                let tok = if f == "const"@ {
                                    TokV::Const(lv)
                                } else {
                                    TokV::Global(lv)
                                };
                                let toks2 = toks.push(tok);
                                lemma_tl_sizes(
                                    lines,
                                    i + 1,
                                    0,
                                    TlMode::Scan(pending),
                                    round,
                                    square,
                                    braces,
                                    toks2,
                                    errs,
                                );
                                assert(tl_from(
                                    lines,
                                    i,
                                    j,
                                    mode,
                                    round,
                                    square,
                                    braces,
                                    toks,
                                    errs,
                                ) == tl_from(
                                    lines,
                                    i + 1,
                                    0,
                                    TlMode::Scan(pending),
                                    round,
                                    square,
                                    braces,
                                    toks2,
                                    errs,
                                ));
                            }
                        }
                    } else if f == "#"@ {
                        if L.len() <= j + 1 {
                            lemma_tl_sizes(
                                lines,
                                i,
                                j + 1,
                                TlMode::Scan(pending),
                                round,
                                square,
                                braces,
                                toks,
                                errs.push((ln, MSG_EXPECTED_SOMETHING@)),
                            );
                            assert(tl_from(lines, i, j, mode, round, square, braces, toks, errs)
                                == tl_from(
                                lines,
                                i,
                                j + 1,
                                TlMode::Scan(pending),
                                round,
                                square,
                                braces,
                                toks,
                                errs.push((ln, MSG_EXPECTED_SOMETHING@)),
                            ));
                        } else if L[j + 1] == "include"@ {
                            if L.len() <= j + 2 {
                                lemma_tl_sizes(
                                    lines,
                                    i,
                                    j + 2,
                                    TlMode::Scan(pending),
                                    round,
                                    square,
                                    braces,
                                    toks,
                                    errs.push((ln, MSG_EXPECTED_PATH@)),
                                );
                                assert(tl_from(
                                    lines,
                                    i,
                                    j,
                                    mode,
                                    round,
                                    square,
                                    braces,
                                    toks,
                                    errs,
                                ) == tl_from(
                                    lines,
                                    i,
                                    j + 2,
                                    TlMode::Scan(pending),
                                    round,
                                    square,
                                    braces,
                                    toks,
                                    errs.push((ln, MSG_EXPECTED_PATH@)),
                                ));
                            } else {
                                let toks2 = toks.push(TokV::CImport(L[j + 2]));
                                lemma_tl_sizes(
                                    lines,
                                    i,
                                    j + 3,
                                    TlMode::Scan(pending),
                                    round,
                                    square,
                                    braces,
                                    toks2,
                                    errs,
                                );
                                assert(tl_from(
                                    lines,
                                    i,
                                    j,
                                    mode,
                                    round,
                                    square,
                                    braces,
                                    toks,
                                    errs,
                                ) == tl_from(
                                    lines,
                                    i,
                                    j + 3,
                                    TlMode::Scan(pending),
                                    round,
                                    square,
                                    braces,
                                    toks2,
                                    errs,
                                ));
                            }
                        } else {
                            lemma_tl_sizes(
                                lines,
                                i,
                                j + 2,
                                TlMode::Scan(pending),
                                round,
                                square,
                                braces,
                                toks,
                                errs.push((ln, MSG_UNIMPLEMENTED@)),
                            );
                            assert(tl_from(lines, i, j, mode, round, square, braces, toks, errs)
                                == tl_from(
                                lines,
                                i,
                                j + 2,
                                TlMode::Scan(pending),
                                round,
                                square,
                                braces,
                                toks,
                                errs.push((ln, MSG_UNIMPLEMENTED@)),
                            ));
                        }
                    } else if f.len() == 0 {
                        lemma_tl_sizes(
                            lines,
                            i,
                            j + 1,
                            TlMode::Scan(pending),
                            round,
                            square,
                            braces,
                            toks,
                            errs,
                        );
                        assert(tl_from(lines, i, j, mode, round, square, braces, toks, errs)
                            == tl_from(
                            lines,
                            i,
                            j + 1,
                            TlMode::Scan(pending),
                            round,
                            square,
                            braces,
                            toks,
                            errs,
                        ));
                    } else {
                        let toks2 = toks.push(TokV::Unknown(f));
                        lemma_tl_sizes(
                            lines,
                            i,
                            j + 1,
                            TlMode::Scan(pending),
                            round,
                            square,
                            braces,
                            toks2,
                            errs.push((ln, MSG_UNEXPECTED_TOKEN@)),
                        );
                        assert(tl_from(lines, i, j, mode, round, square, braces, toks, errs)
                            == tl_from(
                            lines,
                            i,
                            j + 1,
                            TlMode::Scan(pending),
                            round,
                            square,
                            braces,
                            toks2,
                            errs.push((ln, MSG_UNEXPECTED_TOKEN@)),
                        ));
                    }
                },
            }
        }
    }
}

} // verus!

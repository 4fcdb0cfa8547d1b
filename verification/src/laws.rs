//! The general properties of the pipeline, stated and proved once: the
//! tokenizer's round trip, the single function token per well-formed
//! block, the scope-identity pairing scheme, and the determinism of the
//! counted pipeline.

use vstd::prelude::*;

use crate::lexer::model::{AssignV, BrV, ElseV, ForV, IfV, LetV, LineV, LoopV, TokV};
use crate::lexer::semantics::{
    expression_of, find_off, fn_token_of, frags_from, frags_of_line, is_delim, join_spaced,
    ll_from, parse_fin, parse_sig, rem_in_line, tl_from, unbalanced_sq, CapSt, SigRes, TlMode,
    MSG_EXPECTED_BRACE_OR_IF, MSG_EXPECTED_CONDITION, MSG_EXPECTED_EQ, MSG_EXPECTED_EXP_ASSIGN,
    MSG_EXPECTED_EXP_RETURN, MSG_EXPECTED_EXP_YIELD, MSG_EXPECTED_IN, MSG_EXPECTED_ITER,
    MSG_EXPECTED_OPEN_BRACE, MSG_EXPECTED_PATH, MSG_EXPECTED_SOMETHING, MSG_EXPECTED_VAR_NAME,
    MSG_MULTILINE_ARRAY, MSG_UNEXPECTED_TOKEN, MSG_UNIMPLEMENTED, MSG_WRONG_SYNTAX,
};
use crate::lexer::FunctionType;

verus! {

// ---------------------------------------------------------------------
// The tokenizer round trip
// ---------------------------------------------------------------------
/// A line with its whitespace runs collapsed to single spaces and its
/// punctuation isolated, given the pending word `buf`: a space flushes the
/// word and collapses the run; a delimiter (with `//` merged) flushes the
/// word and stands space-separated; every other character extends the
/// word. This is the normal form that rejoining the tokenizer's fragments
/// reproduces.
pub open spec fn norm_from(l: Seq<char>, buf: Seq<char>) -> Seq<char>
    decreases l.len(),
{
    if l.len() == 0 {
        buf
    } else {
        let c = l[0];
        let rest = l.drop_first();
        if c == ' ' {
            if buf.len() > 0 {
                buf + seq![' '] + norm_from(rest, Seq::empty())
            } else {
                norm_from(rest, Seq::empty())
            }
        } else if c == '/' {
            let pre: Seq<char> = if buf.len() > 0 {
                buf + seq![' ']
            } else {
                Seq::empty()
            };
            if rest.len() > 0 && rest[0] == '/' {
                pre + seq!['/', '/'] + seq![' '] + norm_from(rest.drop_first(), Seq::empty())
            } else {
                pre + seq!['/'] + seq![' '] + norm_from(rest, Seq::empty())
            }
        } else if is_delim(c) {
            let pre: Seq<char> = if buf.len() > 0 {
                buf + seq![' ']
            } else {
                Seq::empty()
            };
            pre + seq![c] + seq![' '] + norm_from(rest, Seq::empty())
        } else {
            norm_from(rest, buf.push(c))
        }
    }
}

/// The normal form of a whole line.
pub open spec fn normalized(l: Seq<char>) -> Seq<char> {
    norm_from(l, Seq::empty())
}

/// The tokenizer never yields an empty fragment sequence.
proof fn lemma_frags_nonempty(l: Seq<char>, buf: Seq<char>)
    ensures
        frags_from(l, buf).len() >= 1,
    decreases l.len(),
{
    if l.len() > 0 {
        let c = l[0];
        let rest = l.drop_first();
        if c == ' ' {
            lemma_frags_nonempty(rest, Seq::empty());
        } else if c == '/' {
            if rest.len() > 0 && rest[0] == '/' {
                lemma_frags_nonempty(rest.drop_first(), Seq::empty());
            } else {
                lemma_frags_nonempty(rest, Seq::empty());
            }
        } else if is_delim(c) {
            lemma_frags_nonempty(rest, Seq::empty());
        } else {
            lemma_frags_nonempty(rest, buf.push(c));
        }
    }
}

/// Joining after putting one fragment in front inserts one space.
proof fn lemma_join_prepend(x: Seq<char>, fs: Seq<Seq<char>>)
    requires
        fs.len() >= 1,
    ensures
        join_spaced(seq![x] + fs) == x + seq![' '] + join_spaced(fs),
{
    let whole = seq![x] + fs;
    assert(whole.len() >= 2);
    assert(whole[0] == x);
    assert(whole.drop_first() =~= fs);
}

/// Rejoining the fragments of a line with single spaces reproduces the
/// line in normal form: internal whitespace runs collapse to single
/// spaces and punctuation is isolated.
proof fn lemma_join_norm(l: Seq<char>, buf: Seq<char>)
    ensures
        join_spaced(frags_from(l, buf)) == norm_from(l, buf),
    decreases l.len(),
{
    if l.len() == 0 {
        assert(frags_from(l, buf) =~= seq![buf]);
    } else {
        let c = l[0];
        let rest = l.drop_first();
        if c == ' ' {
            lemma_join_norm(rest, Seq::empty());
            lemma_frags_nonempty(rest, Seq::empty());
            if buf.len() > 0 {
                lemma_join_prepend(buf, frags_from(rest, Seq::empty()));
            }
        } else if c == '/' {
            if rest.len() > 0 && rest[0] == '/' {
                let rest2 = rest.drop_first();
                lemma_join_norm(rest2, Seq::empty());
                lemma_frags_nonempty(rest2, Seq::empty());
                lemma_join_prepend(seq!['/', '/'], frags_from(rest2, Seq::empty()));
                if buf.len() > 0 {
                    lemma_join_prepend(
                        buf,
                        seq![seq!['/', '/']] + frags_from(rest2, Seq::empty()),
                    );
                    assert(frags_from(l, buf) =~= seq![buf] + (seq![seq!['/', '/']] + frags_from(
                        rest2,
                        Seq::empty(),
                    )));
                } else {
                    assert(frags_from(l, buf) =~= seq![seq!['/', '/']] + frags_from(
                        rest2,
                        Seq::empty(),
                    ));
                }
                assert(join_spaced(frags_from(l, buf)) =~= norm_from(l, buf));
            } else {
                lemma_join_norm(rest, Seq::empty());
                lemma_frags_nonempty(rest, Seq::empty());
                lemma_join_prepend(seq!['/'], frags_from(rest, Seq::empty()));
                if buf.len() > 0 {
                    lemma_join_prepend(buf, seq![seq!['/']] + frags_from(rest, Seq::empty()));
                    assert(frags_from(l, buf) =~= seq![buf] + (seq![seq!['/']] + frags_from(
                        rest,
                        Seq::empty(),
                    )));
                } else {
                    assert(frags_from(l, buf) =~= seq![seq!['/']] + frags_from(
                        rest,
                        Seq::empty(),
                    ));
                }
                assert(join_spaced(frags_from(l, buf)) =~= norm_from(l, buf));
            }
        } else if is_delim(c) {
            lemma_join_norm(rest, Seq::empty());
            lemma_frags_nonempty(rest, Seq::empty());
            lemma_join_prepend(seq![c], frags_from(rest, Seq::empty()));
            if buf.len() > 0 {
                lemma_join_prepend(buf, seq![seq![c]] + frags_from(rest, Seq::empty()));
                assert(frags_from(l, buf) =~= seq![buf] + (seq![seq![c]] + frags_from(
                    rest,
                    Seq::empty(),
                )));
            } else {
                assert(frags_from(l, buf) =~= seq![seq![c]] + frags_from(rest, Seq::empty()));
            }
            assert(join_spaced(frags_from(l, buf)) =~= norm_from(l, buf));
        } else {
            lemma_join_norm(rest, buf.push(c));
        }
    }
}

/// For every source line, the Character Tokenizer's fragment sequence,
/// rejoined with single spaces, reproduces the line with its whitespace
/// runs collapsed to single spaces and its punctuation isolated.
pub proof fn lemma_fragments_rejoin(line: Seq<char>)
    ensures
        join_spaced(frags_of_line(line)) == normalized(line),
{
    lemma_join_norm(line, Seq::empty());
}

/// For a well-formed declaration — a `fn` whose signature parses to the
/// body (`Enter`) and whose braces balance before the input ends —
/// exactly one token of the pending function kind, carrying the parsed
/// name, arguments and return type, is appended to the provisional list,
/// right after the tokens already present.
pub proof fn lemma_fn_declaration_emits_one(
    lines: Seq<Seq<Seq<char>>>,
    i: int,
    j: int,
    pending: FunctionType,
    round: int,
    square: int,
    braces: int,
    toks: Seq<TokV>,
    errs: Seq<(int, Seq<char>)>,
)
    requires
        0 <= i < lines.len(),
        0 <= j < lines[i].len(),
        lines[i][j] == "fn"@,
        parse_sig(lines[i], j, i + 1) is Enter,
        ({
            let off = parse_sig(lines[i], j, i + 1)->Enter_off;
            let nj = if j + 1 + off <= lines[i].len() {
                j + 1 + off
            } else {
                lines[i].len() as int
            };
            closes(lines, i, nj, 1)
        }),
    ensures
        ({
            let r = tl_from(
                lines,
                i,
                j,
                TlMode::Scan(pending),
                round,
                square,
                braces,
                toks,
                errs,
            );
            let sig = parse_sig(lines[i], j, i + 1);
            &&& r.toks.len() > toks.len()
            &&& (forall|k: int| 0 <= k < toks.len() ==> r.toks[k] == #[trigger] toks[k])
            &&& (pending == FunctionType::Function ==> (r.toks[toks.len() as int] matches
                TokV::Function(f) && f.name == sig->Enter_name && f.arguments == sig->Enter_args
                && f.return_type == sig->Enter_ret && f.start_ln == i + 1))
            &&& (pending == FunctionType::Loop ==> (r.toks[toks.len() as int] matches
                TokV::LoopFunction(f) && f.name == sig->Enter_name && f.arguments
                == sig->Enter_args && f.return_type == sig->Enter_ret && f.start_ln == i + 1))
            &&& (pending == FunctionType::Generator ==> (r.toks[toks.len() as int] matches
                TokV::GeneratorFunction(f) && f.name == sig->Enter_name && f.arguments
                == sig->Enter_args && f.return_type == sig->Enter_ret && f.start_ln == i + 1))
        }),
{
    let sig = parse_sig(lines[i], j, i + 1);
    if let SigRes::Enter { errs: e, name, args, ret, off, round: r } = sig {
        let nj = if j + 1 + off <= lines[i].len() {
            j + 1 + off
        } else {
            lines[i].len() as int
        };
        let st = CapSt {
            kind: pending,
            name,
            args,
            ret,
            start_ln: i + 1,
            temp: Seq::empty(),
            body: Seq::empty(),
        };
        assert(lines[i][j] != "loop"@ && lines[i][j] != "gen"@) by {
            reveal_strlit("fn");
            reveal_strlit("loop");
            reveal_strlit("gen");
            assert(("fn"@).len() == 2);
            assert(("loop"@).len() == 4);
            assert(("gen"@).len() == 3);
        }
        lemma_capture_emits_one(lines, i, nj, st, r, 0, 1, toks, errs + e);
        assert(tl_from(lines, i, j, TlMode::Scan(pending), round, square, braces, toks, errs)
            == tl_from(lines, i, nj, TlMode::Capture(st), r, 0, 1, toks, errs + e));
    }
}

// ---------------------------------------------------------------------
// Matching openers and closers by identity
// ---------------------------------------------------------------------
/// For a block opened at function identity `R` and brace depth `d`, the
/// End token that closes it — the first later End whose level is `d` —
/// carries the identity `R + d`, the same value the opener carries; and
/// an End token shares the opener's `(id, level)` pair exactly when its
/// level is `d`, so no End inside the block (all at deeper levels) can be
/// mistaken for the matching one.
pub proof fn lemma_matching_end(
    ls: Seq<LineV>,
    id: int,
    li: int,
    ti: int,
    lj: int,
    tj: int,
)
    requires
        lines_scope_ok(ls, id),
        0 <= li < ls.len(),
        0 <= ti < ls[li].tokens.len(),
        0 <= lj < ls.len(),
        0 <= tj < ls[lj].tokens.len(),
        ls[lj].tokens[tj] is End,
    ensures
        ls[li].tokens[ti] matches TokV::If(x) ==> (ls[lj].tokens[tj]->End_0.level == x.level
            <==> ls[lj].tokens[tj]->End_0.id == x.id),
        ls[li].tokens[ti] matches TokV::ElseIf(x) ==> (ls[lj].tokens[tj]->End_0.level == x.level
            <==> ls[lj].tokens[tj]->End_0.id == x.id),
        ls[li].tokens[ti] matches TokV::For(x) ==> (ls[lj].tokens[tj]->End_0.level == x.level
            <==> ls[lj].tokens[tj]->End_0.id == x.id),
{
    assert(scope_pair_ok(ls[li].tokens[ti], id));
    assert(scope_pair_ok(ls[lj].tokens[tj], id));
}

// ---------------------------------------------------------------------
// Determinism of the counted pipeline
// ---------------------------------------------------------------------
/// Re-running the full pipeline on identical input with the counted
/// (non-random) function-identity source yields an identical token
/// stream: every run's stream equals the one value `parse_fin` assigns to
/// the source text, so any two runs agree.
pub proof fn lemma_pipeline_deterministic(
    code: Seq<char>,
    first: Seq<TokV>,
    second: Seq<TokV>,
)
    requires
        first == parse_fin(code, Seq::<TokV>::empty()).toks,
        second == parse_fin(code, Seq::<TokV>::empty()).toks,
    ensures
        first == second,
{
}

// ---------------------------------------------------------------------
// One function token per well-formed block
// ---------------------------------------------------------------------
/// The scan only appends: whatever it emits, the tokens already in the
/// provisional list stay, in place and in order.
#[verifier::rlimit(100)]
#[verifier::spinoff_prover]
pub proof fn lemma_tl_extends(
    lines: Seq<Seq<Seq<char>>>,
    i: int,
    j: int,
    mode: TlMode,
    round: int,
    square: int,
    braces: int,
    toks: Seq<TokV>,
    errs: Seq<(int, Seq<char>)>,
)
    requires
        0 <= i,
        0 <= j,
        i < lines.len() ==> j <= lines[i].len(),
    ensures
        tl_from(lines, i, j, mode, round, square, braces, toks, errs).toks.len() >= toks.len(),
        forall|k: int|
            0 <= k < toks.len() ==> tl_from(
                lines,
                i,
                j,
                mode,
                round,
                square,
                braces,
                toks,
                errs,
            ).toks[k] == #[trigger] toks[k],
    decreases lines.len() - i, rem_in_line(lines, i, j),
{
    if i >= lines.len() {
    } else {
        let L = lines[i];
        let ln = i + 1;
        if j >= L.len() {
            match mode {
                TlMode::Scan(_) => {
                    lemma_tl_extends(lines, i + 1, 0, mode, round, square, braces, toks, errs);
                    assert(tl_from(lines, i, j, mode, round, square, braces, toks, errs)
                        == tl_from(lines, i + 1, 0, mode, round, square, braces, toks, errs));
                },
                TlMode::Capture(st) => {
                    let st2 = CapSt {
                        kind: st.kind,
                        name: st.name,
                        args: st.args,
                        ret: st.ret,
                        start_ln: st.start_ln,
                        temp: Seq::empty(),
                        body: st.body.push(st.temp),
                    };
                    lemma_tl_extends(
                        lines,
                        i + 1,
                        0,
                        TlMode::Capture(st2),
                        round,
                        square,
                        braces,
                        toks,
                        errs,
                    );
                    assert(tl_from(lines, i, j, mode, round, square, braces, toks, errs)
                        == tl_from(
                        lines,
                        i + 1,
                        0,
                        TlMode::Capture(st2),
                        round,
                        square,
                        braces,
                        toks,
                        errs,
                    ));
                },
            }
        } else {
            let f = L[j];
            match mode {
                TlMode::Capture(st) => {
                    if f == "{"@ {
                        let st2 = CapSt {
                            kind: st.kind,
                            name: st.name,
                            args: st.args,
                            ret: st.ret,
                            start_ln: st.start_ln,
                            temp: st.temp.push(f),
                            body: st.body,
                        };
                        lemma_tl_extends(
                            lines,
                            i,
                            j + 1,
                            TlMode::Capture(st2),
                            round,
                            square,
                            braces + 1,
                            toks,
                            errs,
                        );
                        assert(tl_from(lines, i, j, mode, round, square, braces, toks, errs)
                            == tl_from(
                            lines,
                            i,
                            j + 1,
                            TlMode::Capture(st2),
                            round,
                            square,
                            braces + 1,
                            toks,
                            errs,
                        ));
                    } else if f == "}"@ {
                        if braces == 1 {
                            let tok = fn_token_of(st, st.body.push(st.temp));
                            let toks2 = toks.push(tok);
assert(forall|k2: int| 0 <= k2 < toks.len() ==> toks2[k2] == #[trigger] toks[k2]);
                            lemma_tl_extends(
                                lines,
                                i,
                                j + 1,
                                TlMode::Scan(FunctionType::Function),
                                round,
                                square,
                                0,
                                toks2,
                                errs,
                            );
                            assert(tl_from(lines, i, j, mode, round, square, braces, toks, errs)
                                == tl_from(
                                lines,
                                i,
                                j + 1,
                                TlMode::Scan(FunctionType::Function),
                                round,
                                square,
                                0,
                                toks2,
                                errs,
                            ));
                        } else {
                            let st2 = CapSt {
                                kind: st.kind,
                                name: st.name,
                                args: st.args,
                                ret: st.ret,
                                start_ln: st.start_ln,
                                temp: st.temp.push(f),
                                body: st.body,
                            };
                            lemma_tl_extends(
                                lines,
                                i,
                                j + 1,
                                TlMode::Capture(st2),
                                round,
                                square,
                                braces - 1,
                                toks,
                                errs,
                            );
                            assert(tl_from(lines, i, j, mode, round, square, braces, toks, errs)
                                == tl_from(
                                lines,
                                i,
                                j + 1,
                                TlMode::Capture(st2),
                                round,
                                square,
                                braces - 1,
                                toks,
                                errs,
                            ));
                        }
                    } else {
                        let st2 = CapSt {
                            kind: st.kind,
                            name: st.name,
                            args: st.args,
                            ret: st.ret,
                            start_ln: st.start_ln,
                            temp: st.temp.push(f),
                            body: st.body,
                        };
                        lemma_tl_extends(
                            lines,
                            i,
                            j + 1,
                            TlMode::Capture(st2),
                            round,
                            square,
                            braces,
                            toks,
                            errs,
                        );
                        assert(tl_from(lines, i, j, mode, round, square, braces, toks, errs)
                            == tl_from(
                            lines,
                            i,
                            j + 1,
                            TlMode::Capture(st2),
                            round,
                            square,
                            braces,
                            toks,
                            errs,
                        ));
                    }
                },
                TlMode::Scan(pending) => {
                    if f == "loop"@ {
                        lemma_tl_extends(
                            lines,
                            i,
                            j + 1,
                            TlMode::Scan(FunctionType::Loop),
                            round,
                            square,
                            braces,
                            toks,
                            errs,
                        );
                        assert(tl_from(lines, i, j, mode, round, square, braces, toks, errs)
                            == tl_from(
                            lines,
                            i,
                            j + 1,
                            TlMode::Scan(FunctionType::Loop),
                            round,
                            square,
                            braces,
                            toks,
                            errs,
                        ));
                    } else if f == "gen"@ {
                        lemma_tl_extends(
                            lines,
                            i,
                            j + 1,
                            TlMode::Scan(FunctionType::Generator),
                            round,
                            square,
                            braces,
                            toks,
                            errs,
                        );
                        assert(tl_from(lines, i, j, mode, round, square, braces, toks, errs)
                            == tl_from(
                            lines,
                            i,
                            j + 1,
                            TlMode::Scan(FunctionType::Generator),
                            round,
                            square,
                            braces,
                            toks,
                            errs,
                        ));
                    } else if f == "fn"@ {
                        match parse_sig(L, j, ln) {
                            SigRes::NextLine { errs: e, round: r } => {
                                lemma_tl_extends(
                                    lines,
                                    i + 1,
                                    0,
                                    TlMode::Scan(pending),
                                    r,
                                    0,
                                    0,
                                    toks,
                                    errs + e,
                                );
                                assert(tl_from(
                                    lines,
                                    i,
                                    j,
                                    mode,
                                    round,
                                    square,
                                    braces,
                                    toks,
                                    errs,
                                ) == tl_from(
                                    lines,
                                    i + 1,
                                    0,
                                    TlMode::Scan(pending),
                                    r,
                                    0,
                                    0,
                                    toks,
                                    errs + e,
                                ));
                            },
                            SigRes::Resume { errs: e, off, round: r } => {
                                let nj = if j + 1 + off <= L.len() {
                                    j + 1 + off
                                } else {
                                    L.len() as int
                                };
                                lemma_tl_extends(
                                    lines,
                                    i,
                                    nj,
                                    TlMode::Scan(pending),
                                    r,
                                    0,
                                    0,
                                    toks,
                                    errs + e,
                                );
                                assert(tl_from(
                                    lines,
                                    i,
                                    j,
                                    mode,
                                    round,
                                    square,
                                    braces,
                                    toks,
                                    errs,
                                ) == tl_from(
                                    lines,
                                    i,
                                    nj,
                                    TlMode::Scan(pending),
                                    r,
                                    0,
                                    0,
                                    toks,
                                    errs + e,
                                ));
                            },
                            SigRes::Enter { errs: e, name, args, ret, off, round: r } => {
                                let nj = if j + 1 + off <= L.len() {
                                    j + 1 + off
                                } else {
                                    L.len() as int
                                };
                                let st = CapSt {
                                    kind: pending,
                                    name,
                                    args,
                                    ret,
                                    start_ln: ln,
                                    temp: Seq::empty(),
                                    body: Seq::empty(),
                                };
                                lemma_tl_extends(
                                    lines,
                                    i,
                                    nj,
                                    TlMode::Capture(st),
                                    r,
                                    0,
                                    1,
                                    toks,
                                    errs + e,
                                );
                                assert(tl_from(
                                    lines,
                                    i,
                                    j,
                                    mode,
                                    round,
                                    square,
                                    braces,
                                    toks,
                                    errs,
                                ) == tl_from(
                                    lines,
                                    i,
                                    nj,
                                    TlMode::Capture(st),
                                    r,
                                    0,
                                    1,
                                    toks,
                                    errs + e,
                                ));
                            },
                        }
                    } else if f == "//"@ {
                        let toks2 = toks.push(
                            TokV::Comment(join_spaced(L.subrange(j + 1, L.len() as int))),
                        );
assert(forall|k2: int| 0 <= k2 < toks.len() ==> toks2[k2] == #[trigger] toks[k2]);
                        lemma_tl_extends(
                            lines,
                            i + 1,
                            0,
                            TlMode::Scan(pending),
                            round,
                            square,
                            braces,
                            toks2,
                            errs,
                        );
                        assert(tl_from(lines, i, j, mode, round, square, braces, toks, errs)
                            == tl_from(
                            lines,
                            i + 1,
                            0,
                            TlMode::Scan(pending),
                            round,
                            square,
                            braces,
                            toks2,
                            errs,
                        ));
                    } else if f == "const"@ || f == "global"@ {
                        if L.len() <= j + 2 {
                            lemma_tl_extends(
                                lines,
                                i + 1,
                                0,
                                TlMode::Scan(pending),
                                round,
                                square,
                                braces,
                                toks,
                                errs.push((ln, MSG_WRONG_SYNTAX@)),
                            );
                            assert(tl_from(lines, i, j, mode, round, square, braces, toks, errs)
                                == tl_from(
                                lines,
                                i + 1,
                                0,
                                TlMode::Scan(pending),
                                round,
                                square,
                                braces,
                                toks,
                                errs.push((ln, MSG_WRONG_SYNTAX@)),
                            ));
                        } else if L[j + 2] != "="@ {
                            lemma_tl_extends(
                                lines,
                                i,
                                j + 3,
                                TlMode::Scan(pending),
                                round,
                                square,
                                braces,
                                toks,
                                errs.push((ln, MSG_EXPECTED_EQ@)),
                            );
                            assert(tl_from(lines, i, j, mode, round, square, braces, toks, errs)
                                == tl_from(
                                lines,
                                i,
                                j + 3,
                                TlMode::Scan(pending),
                                round,
                                square,
                                braces,
                                toks,
                                errs.push((ln, MSG_EXPECTED_EQ@)),
                            ));
                        } else {
                            let run = L.subrange(j + 3, L.len() as int);
                            if unbalanced_sq(run) {
                                lemma_tl_extends(
                                    lines,
                                    i + 1,
                                    0,
                                    TlMode::Scan(pending),
                                    round,
                                    square,
                                    braces,
                                    toks,
                                    errs.push((ln, MSG_MULTILINE_ARRAY@)),
                                );
                                assert(tl_from(
                                    lines,
                                    i,
                                    j,
                                    mode,
                                    round,
                                    square,
                                    braces,
                                    toks,
                                    errs,
                                ) == tl_from(
                                    lines,
                                    i + 1,
                                    0,
                                    TlMode::Scan(pending),
                                    round,
                                    square,
                                    braces,
                                    toks,
                                    errs.push((ln, MSG_MULTILINE_ARRAY@)),
                                ));
                            } else {
                                let lv = LetV { name: L[j + 1], exp: expression_of(run) };
                                let tok = if f == "const"@ {
                                    TokV::Const(lv)
                                } else {
                                    TokV::Global(lv)
                                };
                                let toks2 = toks.push(tok);
assert(forall|k2: int| 0 <= k2 < toks.len() ==> toks2[k2] == #[trigger] toks[k2]);
                                lemma_tl_extends(
                                    lines,
                                    i + 1,
                                    0,
                                    TlMode::Scan(pending),
                                    round,
                                    square,
                                    braces,
                                    toks2,
                                    errs,
                                );
                                assert(tl_from(
                                    lines,
                                    i,
                                    j,
                                    mode,
                                    round,
                                    square,
                                    braces,
                                    toks,
                                    errs,
                                ) == tl_from(
                                    lines,
                                    i + 1,
                                    0,
                                    TlMode::Scan(pending),
                                    round,
                                    square,
                                    braces,
                                    toks2,
                                    errs,
                                ));
                            }
                        }
                    } else if f == "#"@ {
                        if L.len() <= j + 1 {
                            lemma_tl_extends(
                                lines,
                                i,
                                j + 1,
                                TlMode::Scan(pending),
                                round,
                                square,
                                braces,
                                toks,
                                errs.push((ln, MSG_EXPECTED_SOMETHING@)),
                            );
                            assert(tl_from(lines, i, j, mode, round, square, braces, toks, errs)
                                == tl_from(
                                lines,
                                i,
                                j + 1,
                                TlMode::Scan(pending),
                                round,
                                square,
                                braces,
                                toks,
                                errs.push((ln, MSG_EXPECTED_SOMETHING@)),
                            ));
                        } else if L[j + 1] == "include"@ {
                            if L.len() <= j + 2 {
                                lemma_tl_extends(
                                    lines,
                                    i,
                                    j + 2,
                                    TlMode::Scan(pending),
                                    round,
                                    square,
                                    braces,
                                    toks,
                                    errs.push((ln, MSG_EXPECTED_PATH@)),
                                );
                                assert(tl_from(
                                    lines,
                                    i,
                                    j,
                                    mode,
                                    round,
                                    square,
                                    braces,
                                    toks,
                                    errs,
                                ) == tl_from(
                                    lines,
                                    i,
                                    j + 2,
                                    TlMode::Scan(pending),
                                    round,
                                    square,
                                    braces,
                                    toks,
                                    errs.push((ln, MSG_EXPECTED_PATH@)),
                                ));
                            } else {
                                let toks2 = toks.push(TokV::CImport(L[j + 2]));
assert(forall|k2: int| 0 <= k2 < toks.len() ==> toks2[k2] == #[trigger] toks[k2]);
                                lemma_tl_extends(
                                    lines,
                                    i,
                                    j + 3,
                                    TlMode::Scan(pending),
                                    round,
                                    square,
                                    braces,
                                    toks2,
                                    errs,
                                );
                                assert(tl_from(
                                    lines,
                                    i,
                                    j,
                                    mode,
                                    round,
                                    square,
                                    braces,
                                    toks,
                                    errs,
                                ) == tl_from(
                                    lines,
                                    i,
                                    j + 3,
                                    TlMode::Scan(pending),
                                    round,
                                    square,
                                    braces,
                                    toks2,
                                    errs,
                                ));
                            }
                        } else {
                            lemma_tl_extends(
                                lines,
                                i,
                                j + 2,
                                TlMode::Scan(pending),
                                round,
                                square,
                                braces,
                                toks,
                                errs.push((ln, MSG_UNIMPLEMENTED@)),
                            );
                            assert(tl_from(lines, i, j, mode, round, square, braces, toks, errs)
                                == tl_from(
                                lines,
                                i,
                                j + 2,
                                TlMode::Scan(pending),
                                round,
                                square,
                                braces,
                                toks,
                                errs.push((ln, MSG_UNIMPLEMENTED@)),
                            ));
                        }
                    } else if f.len() == 0 {
                        lemma_tl_extends(
                            lines,
                            i,
                            j + 1,
                            TlMode::Scan(pending),
                            round,
                            square,
                            braces,
                            toks,
                            errs,
                        );
                        assert(tl_from(lines, i, j, mode, round, square, braces, toks, errs)
                            == tl_from(
                            lines,
                            i,
                            j + 1,
                            TlMode::Scan(pending),
                            round,
                            square,
                            braces,
                            toks,
                            errs,
                        ));
                    } else {
                        let toks2 = toks.push(TokV::Unknown(f));
assert(forall|k2: int| 0 <= k2 < toks.len() ==> toks2[k2] == #[trigger] toks[k2]);
                        lemma_tl_extends(
                            lines,
                            i,
                            j + 1,
                            TlMode::Scan(pending),
                            round,
                            square,
                            braces,
                            toks2,
                            errs.push((ln, MSG_UNEXPECTED_TOKEN@)),
                        );
                        assert(tl_from(lines, i, j, mode, round, square, braces, toks, errs)
                            == tl_from(
                            lines,
                            i,
                            j + 1,
                            TlMode::Scan(pending),
                            round,
                            square,
                            braces,
                            toks2,
                            errs.push((ln, MSG_UNEXPECTED_TOKEN@)),
                        ));
                    }
                },
            }
        }
    }
}


/// Whether, scanning from `(i, j)` with the brace counter at `braces`,
/// counting `{` up and `}` down, the counter returns to exactly zero
/// before the input is exhausted: the well-formedness of a function
/// block.
pub open spec fn closes(lines: Seq<Seq<Seq<char>>>, i: int, j: int, braces: int) -> bool
    decreases lines.len() - i, rem_in_line(lines, i, j),
{
    if i < 0 || i >= lines.len() {
        false
    } else if j >= lines[i].len() {
        closes(lines, i + 1, 0, braces)
    } else {
        let f = lines[i][j];
        if f == "{"@ {
            closes(lines, i, j + 1, braces + 1)
        } else if f == "}"@ {
            braces == 1 || closes(lines, i, j + 1, braces - 1)
        } else {
            closes(lines, i, j + 1, braces)
        }
    }
}

/// A declaration whose name slot holds `(` — a missing function name —
/// is reported with exactly one structural error citing the 1-based line
/// number; no token of any kind is emitted for the declaration, and
/// scanning continues with the next line, without aborting.
pub proof fn lemma_missing_fn_name(
    lines: Seq<Seq<Seq<char>>>,
    i: int,
    j: int,
    pending: FunctionType,
    round: int,
    square: int,
    braces: int,
    toks: Seq<TokV>,
    errs: Seq<(int, Seq<char>)>,
)
    requires
        0 <= i < lines.len(),
        0 <= j,
        j + 2 < lines[i].len(),
        lines[i][j] == "fn"@,
        lines[i][j + 1] == "("@,
    ensures
        tl_from(lines, i, j, TlMode::Scan(pending), round, square, braces, toks, errs)
            == tl_from(
            lines,
            i + 1,
            0,
            TlMode::Scan(pending),
            0,
            0,
            0,
            toks,
            errs.push((i + 1, crate::lexer::semantics::MSG_EXPECTED_FN_NAME@)),
        ),
{
    assert(lines[i][j] != "loop"@ && lines[i][j] != "gen"@) by {
        reveal_strlit("fn");
        reveal_strlit("loop");
        reveal_strlit("gen");
        assert(("fn"@).len() == 2);
        assert(("loop"@).len() == 4);
        assert(("gen"@).len() == 3);
    }
    let sig = parse_sig(lines[i], j, i + 1);
    assert(sig matches SigRes::NextLine { errs: e, round: r } && e == seq![
        (i + 1, crate::lexer::semantics::MSG_EXPECTED_FN_NAME@),
    ] && r == 0);
    assert(errs + seq![(i + 1, crate::lexer::semantics::MSG_EXPECTED_FN_NAME@)] =~= errs.push(
        (i + 1, crate::lexer::semantics::MSG_EXPECTED_FN_NAME@),
    ));
}

/// At the closing brace of a captured body — a `}` met with the brace
/// counter at one — the counter returns to exactly zero, exactly one
/// function token carrying the captured header and body joins the
/// provisional list, and scanning resumes right after the brace.
pub proof fn lemma_close_step(
    lines: Seq<Seq<Seq<char>>>,
    i: int,
    j: int,
    st: CapSt,
    round: int,
    square: int,
    toks: Seq<TokV>,
    errs: Seq<(int, Seq<char>)>,
)
    requires
        0 <= i < lines.len(),
        0 <= j < lines[i].len(),
        lines[i][j] == "}"@,
    ensures
        tl_from(lines, i, j, TlMode::Capture(st), round, square, 1, toks, errs) == tl_from(
            lines,
            i,
            j + 1,
            TlMode::Scan(FunctionType::Function),
            round,
            square,
            0,
            toks.push(fn_token_of(st, st.body.push(st.temp))),
            errs,
        ),
{
    assert(lines[i][j] != "{"@) by {
        reveal_strlit("{");
        reveal_strlit("}");
        assert(("{"@)[0] == '{');
        assert(("}"@)[0] == '}');
    }
}

/// For a well-formed block — one whose braces balance before the input
/// ends — body capture appends exactly one token for the function: at the
/// closing point the brace counter returns to exactly zero, a single
/// function token of the captured kind and header joins the provisional
/// list right after the tokens already present, and those earlier tokens
/// stay untouched.
pub proof fn lemma_capture_emits_one(
    lines: Seq<Seq<Seq<char>>>,
    i: int,
    j: int,
    st: CapSt,
    round: int,
    square: int,
    braces: int,
    toks: Seq<TokV>,
    errs: Seq<(int, Seq<char>)>,
)
    requires
        0 <= i,
        0 <= j,
        i < lines.len() ==> j <= lines[i].len(),
        closes(lines, i, j, braces),
    ensures
        ({
            let r = tl_from(lines, i, j, TlMode::Capture(st), round, square, braces, toks, errs);
            &&& r.toks.len() > toks.len()
            &&& (forall|k: int| 0 <= k < toks.len() ==> r.toks[k] == #[trigger] toks[k])
            &&& (st.kind == FunctionType::Function ==> (r.toks[toks.len() as int] matches
                TokV::Function(f) && f.name == st.name && f.arguments == st.args
                && f.return_type == st.ret && f.start_ln == st.start_ln))
            &&& (st.kind == FunctionType::Loop ==> (r.toks[toks.len() as int] matches
                TokV::LoopFunction(f) && f.name == st.name && f.arguments == st.args
                && f.return_type == st.ret && f.start_ln == st.start_ln))
            &&& (st.kind == FunctionType::Generator ==> (r.toks[toks.len() as int] matches
                TokV::GeneratorFunction(f) && f.name == st.name && f.arguments == st.args
                && f.return_type == st.ret && f.start_ln == st.start_ln))
        }),
    decreases lines.len() - i, rem_in_line(lines, i, j),
{
    if i >= lines.len() {
        // excluded: a well-formed block closes before the input ends
    } else {
        let L = lines[i];
        if j >= L.len() {
            let st2 = CapSt {
                kind: st.kind,
                name: st.name,
                args: st.args,
                ret: st.ret,
                start_ln: st.start_ln,
                temp: Seq::empty(),
                body: st.body.push(st.temp),
            };
            lemma_capture_emits_one(lines, i + 1, 0, st2, round, square, braces, toks, errs);
            assert(tl_from(lines, i, j, TlMode::Capture(st), round, square, braces, toks, errs)
                == tl_from(
                lines,
                i + 1,
                0,
                TlMode::Capture(st2),
                round,
                square,
                braces,
                toks,
                errs,
            ));
        } else {
            let f = L[j];
            if f == "{"@ {
                let st2 = CapSt {
                    kind: st.kind,
                    name: st.name,
                    args: st.args,
                    ret: st.ret,
                    start_ln: st.start_ln,
                    temp: st.temp.push(f),
                    body: st.body,
                };
                lemma_capture_emits_one(
                    lines,
                    i,
                    j + 1,
                    st2,
                    round,
                    square,
                    braces + 1,
                    toks,
                    errs,
                );
                assert(tl_from(
                    lines,
                    i,
                    j,
                    TlMode::Capture(st),
                    round,
                    square,
                    braces,
                    toks,
                    errs,
                ) == tl_from(
                    lines,
                    i,
                    j + 1,
                    TlMode::Capture(st2),
                    round,
                    square,
                    braces + 1,
                    toks,
                    errs,
                ));
            } else if f == "}"@ {
                if braces == 1 {
                    let tok = fn_token_of(st, st.body.push(st.temp));
                    let toks2 = toks.push(tok);
                    lemma_tl_extends(
                        lines,
                        i,
                        j + 1,
                        TlMode::Scan(FunctionType::Function),
                        round,
                        square,
                        0,
                        toks2,
                        errs,
                    );
                    assert(tl_from(
                        lines,
                        i,
                        j,
                        TlMode::Capture(st),
                        round,
                        square,
                        braces,
                        toks,
                        errs,
                    ) == tl_from(
                        lines,
                        i,
                        j + 1,
                        TlMode::Scan(FunctionType::Function),
                        round,
                        square,
                        0,
                        toks2,
                        errs,
                    ));
                    assert(toks2[toks.len() as int] == tok);
                    assert(forall|k2: int|
                        0 <= k2 < toks.len() ==> toks2[k2] == #[trigger] toks[k2]);
                } else {
                    let st2 = CapSt {
                        kind: st.kind,
                        name: st.name,
                        args: st.args,
                        ret: st.ret,
                        start_ln: st.start_ln,
                        temp: st.temp.push(f),
                        body: st.body,
                    };
                    lemma_capture_emits_one(
                        lines,
                        i,
                        j + 1,
                        st2,
                        round,
                        square,
                        braces - 1,
                        toks,
                        errs,
                    );
                    assert(tl_from(
                        lines,
                        i,
                        j,
                        TlMode::Capture(st),
                        round,
                        square,
                        braces,
                        toks,
                        errs,
                    ) == tl_from(
                        lines,
                        i,
                        j + 1,
                        TlMode::Capture(st2),
                        round,
                        square,
                        braces - 1,
                        toks,
                        errs,
                    ));
                }
            } else {
                let st2 = CapSt {
                    kind: st.kind,
                    name: st.name,
                    args: st.args,
                    ret: st.ret,
                    start_ln: st.start_ln,
                    temp: st.temp.push(f),
                    body: st.body,
                };
                lemma_capture_emits_one(lines, i, j + 1, st2, round, square, braces, toks, errs);
                assert(tl_from(
                    lines,
                    i,
                    j,
                    TlMode::Capture(st),
                    round,
                    square,
                    braces,
                    toks,
                    errs,
                ) == tl_from(
                    lines,
                    i,
                    j + 1,
                    TlMode::Capture(st2),
                    round,
                    square,
                    braces,
                    toks,
                    errs,
                ));
            }
        }
    }
}

// ---------------------------------------------------------------------
// The scope identity scheme
// ---------------------------------------------------------------------
/// Whether a control or bracket token obeys the composite identity
/// scheme: its `id` field equals the function identity plus its own
/// level. Every other token obeys it vacuously.
pub open spec fn scope_pair_ok(t: TokV, id: int) -> bool {
    match t {
        TokV::If(x) => x.id == id + x.level,
        TokV::ElseIf(x) => x.id == id + x.level,
        TokV::Else(e) => e.id == id + e.level,
        TokV::For(f) => f.id == id + f.level,
        TokV::End(b) => b.id == id + b.level,
        TokV::OpenSqBr(b) => b.id == id + b.level,
        TokV::CloseSqBr(b) => b.id == id + b.level,
        TokV::OpenRoBr(b) => b.id == id + b.level,
        TokV::CloseRoBr(b) => b.id == id + b.level,
        _ => true,
    }
}

pub open spec fn line_scope_ok(l: LineV, id: int) -> bool {
    forall|ti: int| 0 <= ti < l.tokens.len() ==> scope_pair_ok(#[trigger] l.tokens[ti], id)
}

pub open spec fn lines_scope_ok(ls: Seq<LineV>, id: int) -> bool {
    forall|li: int| 0 <= li < ls.len() ==> line_scope_ok(#[trigger] ls[li], id)
}

/// Every control and bracket token the statement-level scan emits carries
/// the composite pair `(id + level, level)`: a later consumer can match
/// an opener to its closing End by identity alone, without a tree or a
/// stack.
#[verifier::rlimit(100)]
#[verifier::spinoff_prover]
pub proof fn lemma_ll_scope_ids(
    lines: Seq<Seq<Seq<char>>>,
    i: int,
    j: int,
    id: int,
    start_ln: int,
    round: int,
    square: int,
    braces: int,
    cur: Seq<TokV>,
    out: Seq<LineV>,
    errs: Seq<(int, Seq<char>)>,
)
    requires
        0 <= i,
        0 <= j,
        i < lines.len() ==> j <= lines[i].len(),
        forall|ti: int| 0 <= ti < cur.len() ==> scope_pair_ok(#[trigger] cur[ti], id),
        lines_scope_ok(out, id),
    ensures
        lines_scope_ok(
            ll_from(lines, i, j, id, start_ln, round, square, braces, cur, out, errs).lines,
            id,
        ),
    decreases lines.len() - i, rem_in_line(lines, i, j),
{
    if i < 0 || i >= lines.len() {
    } else {
        let L = lines[i];
        let ln = start_ln + i;
        if L.len() == 0 {
            {
            lemma_ll_scope_ids(lines, i + 1, 0, id, start_ln, round, square, braces, cur, out, errs);
            assert(ll_from(lines, i, j, id, start_ln, round, square, braces, cur, out, errs) == ll_from(lines, i + 1, 0, id, start_ln, round, square, braces, cur, out, errs));
        }
        } else if j >= L.len() {
            {
            lemma_ll_scope_ids(
                lines,
                i + 1,
                0,
                id,
                start_ln,
                round,
                square,
                braces,
                Seq::empty(),
                out.push(LineV { tokens: cur, as_string: join_spaced(L) }),
                errs,
            );
            assert(ll_from(lines, i, j, id, start_ln, round, square, braces, cur, out, errs) == ll_from(
                lines,
                i + 1,
                0,
                id,
                start_ln,
                round,
                square,
                braces,
                Seq::empty(),
                out.push(LineV { tokens: cur, as_string: join_spaced(L) }),
                errs,
            ));
        }
        } else {
            let f = L[j];
            let e = L.len() as int;
            if f == "let"@ {
                if L.len() <= j + 2 {
                    {
            lemma_ll_scope_ids(lines, i, e, id, start_ln, round, square, braces, cur, out, errs.push(
                        (ln, MSG_WRONG_SYNTAX@),
                    ));
            assert(ll_from(lines, i, j, id, start_ln, round, square, braces, cur, out, errs) == ll_from(lines, i, e, id, start_ln, round, square, braces, cur, out, errs.push(
                        (ln, MSG_WRONG_SYNTAX@),
                    )));
        }
                } else if L[j + 2] != "="@ {
                    {
            lemma_ll_scope_ids(
                        lines,
                        i,
                        j + 3,
                        id,
                        start_ln,
                        round,
                        square,
                        braces,
                        cur,
                        out,
                        errs.push((ln, MSG_EXPECTED_EQ@)),
                    );
            assert(ll_from(lines, i, j, id, start_ln, round, square, braces, cur, out, errs) == ll_from(
                        lines,
                        i,
                        j + 3,
                        id,
                        start_ln,
                        round,
                        square,
                        braces,
                        cur,
                        out,
                        errs.push((ln, MSG_EXPECTED_EQ@)),
                    ));
        }
                } else {
                    let run = L.subrange(j + 3, e);
                    if unbalanced_sq(run) {
                        {
            lemma_ll_scope_ids(
                            lines,
                            i,
                            e,
                            id,
                            start_ln,
                            round,
                            square,
                            braces,
                            cur,
                            out,
                            errs.push((ln, MSG_MULTILINE_ARRAY@)),
                        );
            assert(ll_from(lines, i, j, id, start_ln, round, square, braces, cur, out, errs) == ll_from(
                            lines,
                            i,
                            e,
                            id,
                            start_ln,
                            round,
                            square,
                            braces,
                            cur,
                            out,
                            errs.push((ln, MSG_MULTILINE_ARRAY@)),
                        ));
        }
                    } else {
                        {
            lemma_ll_scope_ids(
                            lines,
                            i,
                            e,
                            id,
                            start_ln,
                            round,
                            square,
                            braces,
                            cur.push(TokV::Var(LetV { name: L[j + 1], exp: expression_of(run) })),
                            out,
                            errs,
                        );
            assert(ll_from(lines, i, j, id, start_ln, round, square, braces, cur, out, errs) == ll_from(
                            lines,
                            i,
                            e,
                            id,
                            start_ln,
                            round,
                            square,
                            braces,
                            cur.push(TokV::Var(LetV { name: L[j + 1], exp: expression_of(run) })),
                            out,
                            errs,
                        ));
        }
                    }
                }
            } else if f == "if"@ {
                let k = j + 1 + find_off(L, j + 1, "{"@);
                if k >= L.len() {
                    {
            lemma_ll_scope_ids(lines, i, e, id, start_ln, round, square, braces, cur, out, errs.push(
                        (ln, MSG_EXPECTED_OPEN_BRACE@),
                    ));
            assert(ll_from(lines, i, j, id, start_ln, round, square, braces, cur, out, errs) == ll_from(lines, i, e, id, start_ln, round, square, braces, cur, out, errs.push(
                        (ln, MSG_EXPECTED_OPEN_BRACE@),
                    )));
        }
                } else {
                    let cond = L.subrange(j + 1, k);
                    if cond.len() == 0 {
                        {
            lemma_ll_scope_ids(
                            lines,
                            i,
                            k + 1,
                            id,
                            start_ln,
                            round,
                            square,
                            braces + 1,
                            cur,
                            out,
                            errs.push((ln, MSG_EXPECTED_CONDITION@)),
                        );
            assert(ll_from(lines, i, j, id, start_ln, round, square, braces, cur, out, errs) == ll_from(
                            lines,
                            i,
                            k + 1,
                            id,
                            start_ln,
                            round,
                            square,
                            braces + 1,
                            cur,
                            out,
                            errs.push((ln, MSG_EXPECTED_CONDITION@)),
                        ));
        }
                    } else {
                        {
            lemma_ll_scope_ids(
                            lines,
                            i,
                            k + 1,
                            id,
                            start_ln,
                            round,
                            square,
                            braces + 1,
                            cur.push(
                                TokV::If(
                                    IfV {
                                        condition: expression_of(cond),
                                        id: id + braces + 1,
                                        level: braces + 1,
                                    },
                                ),
                            ),
                            out,
                            errs,
                        );
            assert(ll_from(lines, i, j, id, start_ln, round, square, braces, cur, out, errs) == ll_from(
                            lines,
                            i,
                            k + 1,
                            id,
                            start_ln,
                            round,
                            square,
                            braces + 1,
                            cur.push(
                                TokV::If(
                                    IfV {
                                        condition: expression_of(cond),
                                        id: id + braces + 1,
                                        level: braces + 1,
                                    },
                                ),
                            ),
                            out,
                            errs,
                        ));
        }
                    }
                }
            } else if f == "else"@ {
                if L.len() <= j + 1 {
                    {
            lemma_ll_scope_ids(
                        lines,
                        i,
                        j + 1,
                        id,
                        start_ln,
                        round,
                        square,
                        braces,
                        cur,
                        out,
                        errs.push((ln, MSG_EXPECTED_BRACE_OR_IF@)),
                    );
            assert(ll_from(lines, i, j, id, start_ln, round, square, braces, cur, out, errs) == ll_from(
                        lines,
                        i,
                        j + 1,
                        id,
                        start_ln,
                        round,
                        square,
                        braces,
                        cur,
                        out,
                        errs.push((ln, MSG_EXPECTED_BRACE_OR_IF@)),
                    ));
        }
                } else if L[j + 1] == "if"@ {
                    let k = j + 2 + find_off(L, j + 2, "{"@);
                    if k >= L.len() {
                        {
            lemma_ll_scope_ids(
                            lines,
                            i,
                            e,
                            id,
                            start_ln,
                            round,
                            square,
                            braces,
                            cur,
                            out,
                            errs.push((ln, MSG_EXPECTED_OPEN_BRACE@)),
                        );
            assert(ll_from(lines, i, j, id, start_ln, round, square, braces, cur, out, errs) == ll_from(
                            lines,
                            i,
                            e,
                            id,
                            start_ln,
                            round,
                            square,
                            braces,
                            cur,
                            out,
                            errs.push((ln, MSG_EXPECTED_OPEN_BRACE@)),
                        ));
        }
                    } else {
                        let cond = L.subrange(j + 2, k);
                        if cond.len() == 0 {
                            {
            lemma_ll_scope_ids(
                                lines,
                                i,
                                k + 1,
                                id,
                                start_ln,
                                round,
                                square,
                                braces + 1,
                                cur,
                                out,
                                errs.push((ln, MSG_EXPECTED_CONDITION@)),
                            );
            assert(ll_from(lines, i, j, id, start_ln, round, square, braces, cur, out, errs) == ll_from(
                                lines,
                                i,
                                k + 1,
                                id,
                                start_ln,
                                round,
                                square,
                                braces + 1,
                                cur,
                                out,
                                errs.push((ln, MSG_EXPECTED_CONDITION@)),
                            ));
        }
                        } else {
                            {
            lemma_ll_scope_ids(
                                lines,
                                i,
                                k + 1,
                                id,
                                start_ln,
                                round,
                                square,
                                braces + 1,
                                cur.push(
                                    TokV::ElseIf(
                                        IfV {
                                            condition: expression_of(cond),
                                            id: id + braces + 1,
                                            level: braces + 1,
                                        },
                                    ),
                                ),
                                out,
                                errs,
                            );
            assert(ll_from(lines, i, j, id, start_ln, round, square, braces, cur, out, errs) == ll_from(
                                lines,
                                i,
                                k + 1,
                                id,
                                start_ln,
                                round,
                                square,
                                braces + 1,
                                cur.push(
                                    TokV::ElseIf(
                                        IfV {
                                            condition: expression_of(cond),
                                            id: id + braces + 1,
                                            level: braces + 1,
                                        },
                                    ),
                                ),
                                out,
                                errs,
                            ));
        }
                        }
                    }
                } else if L[j + 1] == "{"@ {
                    {
            lemma_ll_scope_ids(
                        lines,
                        i,
                        j + 2,
                        id,
                        start_ln,
                        round,
                        square,
                        braces + 1,
                        cur.push(TokV::Else(ElseV { id: id + braces, level: braces })),
                        out,
                        errs,
                    );
            assert(ll_from(lines, i, j, id, start_ln, round, square, braces, cur, out, errs) == ll_from(
                        lines,
                        i,
                        j + 2,
                        id,
                        start_ln,
                        round,
                        square,
                        braces + 1,
                        cur.push(TokV::Else(ElseV { id: id + braces, level: braces })),
                        out,
                        errs,
                    ));
        }
                } else {
                    {
            lemma_ll_scope_ids(
                        lines,
                        i,
                        j + 2,
                        id,
                        start_ln,
                        round,
                        square,
                        braces,
                        cur,
                        out,
                        errs.push((ln, MSG_EXPECTED_BRACE_OR_IF@)),
                    );
            assert(ll_from(lines, i, j, id, start_ln, round, square, braces, cur, out, errs) == ll_from(
                        lines,
                        i,
                        j + 2,
                        id,
                        start_ln,
                        round,
                        square,
                        braces,
                        cur,
                        out,
                        errs.push((ln, MSG_EXPECTED_BRACE_OR_IF@)),
                    ));
        }
                }
            } else if f == "for"@ {
                if L.len() <= j + 1 {
                    {
            lemma_ll_scope_ids(
                        lines,
                        i,
                        j + 1,
                        id,
                        start_ln,
                        round,
                        square,
                        braces,
                        cur,
                        out,
                        errs.push((ln, MSG_EXPECTED_VAR_NAME@)),
                    );
            assert(ll_from(lines, i, j, id, start_ln, round, square, braces, cur, out, errs) == ll_from(
                        lines,
                        i,
                        j + 1,
                        id,
                        start_ln,
                        round,
                        square,
                        braces,
                        cur,
                        out,
                        errs.push((ln, MSG_EXPECTED_VAR_NAME@)),
                    ));
        }
                } else if L.len() > j + 2 && L[j + 2] == "in"@ {
                    let k = j + 3 + find_off(L, j + 3, "{"@);
                    if k >= L.len() {
                        {
            lemma_ll_scope_ids(
                            lines,
                            i,
                            e,
                            id,
                            start_ln,
                            round,
                            square,
                            braces,
                            cur,
                            out,
                            errs.push((ln, MSG_EXPECTED_OPEN_BRACE@)),
                        );
            assert(ll_from(lines, i, j, id, start_ln, round, square, braces, cur, out, errs) == ll_from(
                            lines,
                            i,
                            e,
                            id,
                            start_ln,
                            round,
                            square,
                            braces,
                            cur,
                            out,
                            errs.push((ln, MSG_EXPECTED_OPEN_BRACE@)),
                        ));
        }
                    } else {
                        let iter = L.subrange(j + 3, k);
                        if iter.len() == 0 {
                            {
            lemma_ll_scope_ids(
                                lines,
                                i,
                                k + 1,
                                id,
                                start_ln,
                                round,
                                square,
                                braces + 1,
                                cur,
                                out,
                                errs.push((ln, MSG_EXPECTED_ITER@)),
                            );
            assert(ll_from(lines, i, j, id, start_ln, round, square, braces, cur, out, errs) == ll_from(
                                lines,
                                i,
                                k + 1,
                                id,
                                start_ln,
                                round,
                                square,
                                braces + 1,
                                cur,
                                out,
                                errs.push((ln, MSG_EXPECTED_ITER@)),
                            ));
        }
                        } else {
                            {
            lemma_ll_scope_ids(
                                lines,
                                i,
                                k + 1,
                                id,
                                start_ln,
                                round,
                                square,
                                braces + 1,
                                cur.push(
                                    TokV::For(
                                        ForV {
                                            id: id + braces + 1,
                                            level: braces + 1,
                                            var_name: L[j + 1],
                                            iter_exp: expression_of(iter),
                                        },
                                    ),
                                ),
                                out,
                                errs,
                            );
            assert(ll_from(lines, i, j, id, start_ln, round, square, braces, cur, out, errs) == ll_from(
                                lines,
                                i,
                                k + 1,
                                id,
                                start_ln,
                                round,
                                square,
                                braces + 1,
                                cur.push(
                                    TokV::For(
                                        ForV {
                                            id: id + braces + 1,
                                            level: braces + 1,
                                            var_name: L[j + 1],
                                            iter_exp: expression_of(iter),
                                        },
                                    ),
                                ),
                                out,
                                errs,
                            ));
        }
                        }
                    }
                } else {
                    let nj = if L.len() > j + 2 {
                        j + 3
                    } else {
                        j + 2
                    };
                    {
            lemma_ll_scope_ids(lines, i, nj, id, start_ln, round, square, braces, cur, out, errs.push(
                        (ln, MSG_EXPECTED_IN@),
                    ));
            assert(ll_from(lines, i, j, id, start_ln, round, square, braces, cur, out, errs) == ll_from(lines, i, nj, id, start_ln, round, square, braces, cur, out, errs.push(
                        (ln, MSG_EXPECTED_IN@),
                    )));
        }
                }
            } else if f == "}"@ {
                {
            lemma_ll_scope_ids(
                    lines,
                    i,
                    j + 1,
                    id,
                    start_ln,
                    round,
                    square,
                    braces - 1,
                    cur.push(TokV::End(BrV { id: id + braces, level: braces })),
                    out,
                    errs,
                );
            assert(ll_from(lines, i, j, id, start_ln, round, square, braces, cur, out, errs) == ll_from(
                    lines,
                    i,
                    j + 1,
                    id,
                    start_ln,
                    round,
                    square,
                    braces - 1,
                    cur.push(TokV::End(BrV { id: id + braces, level: braces })),
                    out,
                    errs,
                ));
        }
            } else if f == "["@ {
                {
            lemma_ll_scope_ids(
                    lines,
                    i,
                    j + 1,
                    id,
                    start_ln,
                    round,
                    square + 1,
                    braces,
                    cur.push(TokV::OpenSqBr(BrV { id: id + square, level: square })),
                    out,
                    errs,
                );
            assert(ll_from(lines, i, j, id, start_ln, round, square, braces, cur, out, errs) == ll_from(
                    lines,
                    i,
                    j + 1,
                    id,
                    start_ln,
                    round,
                    square + 1,
                    braces,
                    cur.push(TokV::OpenSqBr(BrV { id: id + square, level: square })),
                    out,
                    errs,
                ));
        }
            } else if f == "]"@ {
                {
            lemma_ll_scope_ids(
                    lines,
                    i,
                    j + 1,
                    id,
                    start_ln,
                    round,
                    square - 1,
                    braces,
                    cur.push(TokV::CloseSqBr(BrV { id: id + square, level: square })),
                    out,
                    errs,
                );
            assert(ll_from(lines, i, j, id, start_ln, round, square, braces, cur, out, errs) == ll_from(
                    lines,
                    i,
                    j + 1,
                    id,
                    start_ln,
                    round,
                    square - 1,
                    braces,
                    cur.push(TokV::CloseSqBr(BrV { id: id + square, level: square })),
                    out,
                    errs,
                ));
        }
            } else if f == "("@ {
                {
            lemma_ll_scope_ids(
                    lines,
                    i,
                    j + 1,
                    id,
                    start_ln,
                    round + 1,
                    square,
                    braces,
                    cur.push(TokV::OpenRoBr(BrV { id: id + round, level: round })),
                    out,
                    errs,
                );
            assert(ll_from(lines, i, j, id, start_ln, round, square, braces, cur, out, errs) == ll_from(
                    lines,
                    i,
                    j + 1,
                    id,
                    start_ln,
                    round + 1,
                    square,
                    braces,
                    cur.push(TokV::OpenRoBr(BrV { id: id + round, level: round })),
                    out,
                    errs,
                ));
        }
            } else if f == ")"@ {
                {
            lemma_ll_scope_ids(
                    lines,
                    i,
                    j + 1,
                    id,
                    start_ln,
                    round - 1,
                    square,
                    braces,
                    cur.push(TokV::CloseRoBr(BrV { id: id + round, level: round })),
                    out,
                    errs,
                );
            assert(ll_from(lines, i, j, id, start_ln, round, square, braces, cur, out, errs) == ll_from(
                    lines,
                    i,
                    j + 1,
                    id,
                    start_ln,
                    round - 1,
                    square,
                    braces,
                    cur.push(TokV::CloseRoBr(BrV { id: id + round, level: round })),
                    out,
                    errs,
                ));
        }
            } else if f == ","@ {
                {
            lemma_ll_scope_ids(
                    lines,
                    i,
                    j + 1,
                    id,
                    start_ln,
                    round,
                    square,
                    braces,
                    cur.push(TokV::Comma),
                    out,
                    errs,
                );
            assert(ll_from(lines, i, j, id, start_ln, round, square, braces, cur, out, errs) == ll_from(
                    lines,
                    i,
                    j + 1,
                    id,
                    start_ln,
                    round,
                    square,
                    braces,
                    cur.push(TokV::Comma),
                    out,
                    errs,
                ));
        }
            } else if f == "loop"@ {
                if L.len() <= j + 1 {
                    {
            lemma_ll_scope_ids(lines, i, j + 1, id, start_ln, round, square, braces, cur, out, errs);
            assert(ll_from(lines, i, j, id, start_ln, round, square, braces, cur, out, errs) == ll_from(lines, i, j + 1, id, start_ln, round, square, braces, cur, out, errs));
        }
                } else if L[j + 1] == "{"@ {
                    {
            lemma_ll_scope_ids(
                        lines,
                        i,
                        j + 2,
                        id,
                        start_ln,
                        round,
                        square,
                        braces + 1,
                        cur.push(TokV::Loop(LoopV { id: braces + 1 })),
                        out,
                        errs,
                    );
            assert(ll_from(lines, i, j, id, start_ln, round, square, braces, cur, out, errs) == ll_from(
                        lines,
                        i,
                        j + 2,
                        id,
                        start_ln,
                        round,
                        square,
                        braces + 1,
                        cur.push(TokV::Loop(LoopV { id: braces + 1 })),
                        out,
                        errs,
                    ));
        }
                } else {
                    {
            lemma_ll_scope_ids(
                        lines,
                        i,
                        j + 2,
                        id,
                        start_ln,
                        round,
                        square,
                        braces,
                        cur,
                        out,
                        errs.push((ln, MSG_EXPECTED_OPEN_BRACE@)),
                    );
            assert(ll_from(lines, i, j, id, start_ln, round, square, braces, cur, out, errs) == ll_from(
                        lines,
                        i,
                        j + 2,
                        id,
                        start_ln,
                        round,
                        square,
                        braces,
                        cur,
                        out,
                        errs.push((ln, MSG_EXPECTED_OPEN_BRACE@)),
                    ));
        }
                }
            } else if f.len() == 0 {
                {
            lemma_ll_scope_ids(lines, i, j + 1, id, start_ln, round, square, braces, cur, out, errs);
            assert(ll_from(lines, i, j, id, start_ln, round, square, braces, cur, out, errs) == ll_from(lines, i, j + 1, id, start_ln, round, square, braces, cur, out, errs));
        }
            } else if f == "yield"@ {
                if L.len() > j + 1 {
                    {
            lemma_ll_scope_ids(
                        lines,
                        i,
                        e,
                        id,
                        start_ln,
                        round,
                        square,
                        braces,
                        cur.push(TokV::Yield(expression_of(L.subrange(j + 1, e)))),
                        out,
                        errs,
                    );
            assert(ll_from(lines, i, j, id, start_ln, round, square, braces, cur, out, errs) == ll_from(
                        lines,
                        i,
                        e,
                        id,
                        start_ln,
                        round,
                        square,
                        braces,
                        cur.push(TokV::Yield(expression_of(L.subrange(j + 1, e)))),
                        out,
                        errs,
                    ));
        }
                } else {
                    {
            lemma_ll_scope_ids(
                        lines,
                        i,
                        j + 1,
                        id,
                        start_ln,
                        round,
                        square,
                        braces,
                        cur,
                        out,
                        errs.push((ln, MSG_EXPECTED_EXP_YIELD@)),
                    );
            assert(ll_from(lines, i, j, id, start_ln, round, square, braces, cur, out, errs) == ll_from(
                        lines,
                        i,
                        j + 1,
                        id,
                        start_ln,
                        round,
                        square,
                        braces,
                        cur,
                        out,
                        errs.push((ln, MSG_EXPECTED_EXP_YIELD@)),
                    ));
        }
                }
            } else if f == "return"@ {
                if L.len() > j + 1 {
                    {
            lemma_ll_scope_ids(
                        lines,
                        i,
                        e,
                        id,
                        start_ln,
                        round,
                        square,
                        braces,
                        cur.push(TokV::Return(expression_of(L.subrange(j + 1, e)))),
                        out,
                        errs,
                    );
            assert(ll_from(lines, i, j, id, start_ln, round, square, braces, cur, out, errs) == ll_from(
                        lines,
                        i,
                        e,
                        id,
                        start_ln,
                        round,
                        square,
                        braces,
                        cur.push(TokV::Return(expression_of(L.subrange(j + 1, e)))),
                        out,
                        errs,
                    ));
        }
                } else {
                    {
            lemma_ll_scope_ids(
                        lines,
                        i,
                        j + 1,
                        id,
                        start_ln,
                        round,
                        square,
                        braces,
                        cur,
                        out,
                        errs.push((ln, MSG_EXPECTED_EXP_RETURN@)),
                    );
            assert(ll_from(lines, i, j, id, start_ln, round, square, braces, cur, out, errs) == ll_from(
                        lines,
                        i,
                        j + 1,
                        id,
                        start_ln,
                        round,
                        square,
                        braces,
                        cur,
                        out,
                        errs.push((ln, MSG_EXPECTED_EXP_RETURN@)),
                    ));
        }
                }
            } else {
                if L.len() > j + 1 && L[j + 1] == "="@ {
                    if L.len() > j + 2 {
                        {
            lemma_ll_scope_ids(
                            lines,
                            i,
                            e,
                            id,
                            start_ln,
                            round,
                            square,
                            braces,
                            cur.push(
                                TokV::Assign(
                                    AssignV { var: f, exp: expression_of(L.subrange(j + 2, e)) },
                                ),
                            ),
                            out,
                            errs,
                        );
            assert(ll_from(lines, i, j, id, start_ln, round, square, braces, cur, out, errs) == ll_from(
                            lines,
                            i,
                            e,
                            id,
                            start_ln,
                            round,
                            square,
                            braces,
                            cur.push(
                                TokV::Assign(
                                    AssignV { var: f, exp: expression_of(L.subrange(j + 2, e)) },
                                ),
                            ),
                            out,
                            errs,
                        ));
        }
                    } else {
                        {
            lemma_ll_scope_ids(
                            lines,
                            i,
                            j + 2,
                            id,
                            start_ln,
                            round,
                            square,
                            braces,
                            cur,
                            out,
                            errs.push((ln, MSG_EXPECTED_EXP_ASSIGN@)),
                        );
            assert(ll_from(lines, i, j, id, start_ln, round, square, braces, cur, out, errs) == ll_from(
                            lines,
                            i,
                            j + 2,
                            id,
                            start_ln,
                            round,
                            square,
                            braces,
                            cur,
                            out,
                            errs.push((ln, MSG_EXPECTED_EXP_ASSIGN@)),
                        ));
        }
                    }
                } else {
                    {
            lemma_ll_scope_ids(
                        lines,
                        i,
                        j + 1,
                        id,
                        start_ln,
                        round,
                        square,
                        braces,
                        cur.push(TokV::Generic(f)),
                        out,
                        errs,
                    );
            assert(ll_from(lines, i, j, id, start_ln, round, square, braces, cur, out, errs) == ll_from(
                        lines,
                        i,
                        j + 1,
                        id,
                        start_ln,
                        round,
                        square,
                        braces,
                        cur.push(TokV::Generic(f)),
                        out,
                        errs,
                    ));
        }
                }
            }
        }
    }
}

} // verus!

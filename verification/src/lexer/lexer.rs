//! The executable scanning pipeline, verified against the functions of
//! `semantics`.

use vstd::prelude::*;

use crate::lexer::model::{
    lemma_lines_view_push, lemma_tokens_view_push, line_view, lines_view, token_view, tokens_view,
    LineV, TokV,
};
use crate::lexer::semantics::{
    concat_frags, count_all, count_from, count_tail, exp_token_of, expression_of, find_off,
    frags_from, frags_of_line, gs_errs, is_delim, lemma_count_tail_nonneg, lemma_strings_count,
    lines_from, lines_of, ll_from, ll_result, nested_paren_count, nested_paren_errs, parse_args,
    parse_args_from, parse_sig, rem_in_line, strings_of, strip_cr, tl_from, tl_result, CapSt,
    SigRes, TlMode, MSG_EXPECTED_BRACES, MSG_EXPECTED_BRACES_OR_COLON,
    MSG_EXPECTED_BRACE_OR_IF, MSG_EXPECTED_COLON, MSG_EXPECTED_CONDITION, MSG_EXPECTED_EQ,
    MSG_EXPECTED_EXP_ASSIGN, MSG_EXPECTED_EXP_RETURN, MSG_EXPECTED_EXP_YIELD,
    MSG_EXPECTED_ARG_NAME, MSG_EXPECTED_ARG_TYPE, MSG_EXPECTED_FN_NAME,
    MSG_EXPECTED_FN_NAME_AND_BRACKET, MSG_EXPECTED_IN, MSG_EXPECTED_ITER,
    MSG_EXPECTED_OPENING_BRACKET, MSG_EXPECTED_OPEN_BRACE, MSG_EXPECTED_PATH,
    MSG_EXPECTED_RETURN_TYPE, MSG_EXPECTED_SOMETHING, MSG_EXPECTED_VAR_NAME,
    MSG_MULTILINE_ARRAY, MSG_PROVIDE_CODE, MSG_UNABLE_TO_PARSE_FN, MSG_UNEXPECTED_OPENING_BRACKET,
    finalize_from, finalize_with, parse_fin, provisional_ok, MSG_UNEXPECTED_TOKEN, MSG_UNIMPLEMENTED, MSG_WRONG_SYNTAX,
    RET_VOID,
};
use crate::lexer::token;
use crate::lexer::token::Arg;
use crate::lexer::token::expression::Operator;
use crate::lexer::{Brackets, FunctionType, Lexer, Line, Token};
use crate::strutil::{
    concat_range, drop_last_char, ends_with_colon, find_frag, find_frag_within, frag_is,
    join_frags, join_frags_from, range_contains,
};
use crate::Diagnostics;

verus! {

/// Bound on the identity values, line numbers and fragment counts the
/// statement-level scanner accepts: large enough for any real input, small
/// enough that every composite identifier fits an `i64`.
pub const SIZE_LIMIT: i64 = 0x2000000000000000;

impl Lexer {
    /// A lexer with empty state and all bracket counters at zero.
    pub fn new() -> (r: Lexer)
        ensures
            r.tmp_ast@ == Seq::<Token>::empty(),
            r.ast@ == Seq::<Token>::empty(),
            r.strings@ == Seq::<Vec<String>>::empty(),
            r.brackets.round == 0,
            r.brackets.square == 0,
            r.brackets.braces == 0,
    {
        Lexer {
            tmp_ast: Vec::new(),
            ast: Vec::new(),
            strings: Vec::new(),
            brackets: Brackets { round: 0, square: 0, braces: 0 },
        }
    }

    /// The character tokenizer: split the source into one fragment
    /// sequence per line. A zero-line input is reported as a usage
    /// diagnostic; otherwise this stage cannot fail.
    pub fn generate_strings(&mut self, code: &str, diag: &mut Diagnostics)
        ensures
            final(self).strings.deep_view() == strings_of(code@),
            final(self).tmp_ast == old(self).tmp_ast,
            final(self).ast == old(self).ast,
            final(self).brackets == old(self).brackets,
            final(diag)@ == old(diag)@ + gs_errs(code@),
    {
        self.strings.clear();
        let n = code.unicode_len();
        proof {
            lemma_lines_len_zero(code@, Seq::empty());
        }
        if n == 0 {
            diag.report(0, MSG_PROVIDE_CODE);
            proof {
                assert(diag@ =~= old(diag)@ + gs_errs(code@));
                assert(self.strings.deep_view() =~= strings_of(code@));
            }
            return ;
        }
        proof {
            assert(diag@ =~= old(diag)@ + gs_errs(code@));
        }
        let mut idx: usize = 0;
        let mut cur: Vec<char> = Vec::new();
        let ghost mut done: Seq<Seq<char>> = Seq::empty();
        proof {
            assert(code@.skip(0) =~= code@);
            assert(self.strings.deep_view() =~= done.map(|q: int, l: Seq<char>| frags_of_line(l)));
        }
        while idx < n
            invariant
                0 <= idx <= n,
                n == code@.len(),
                lines_of(code@) == done + lines_from(code@.skip(idx as int), cur@),
                self.strings.deep_view() == done.map(|q: int, l: Seq<char>| frags_of_line(l)),
                self.tmp_ast == old(self).tmp_ast,
                self.ast == old(self).ast,
                self.brackets == old(self).brackets,
            decreases n - idx,
        {
            let ghost rest = code@.skip(idx as int);
            proof {
                assert(rest.len() > 0);
                assert(rest[0] == code@[idx as int]);
                assert(rest.drop_first() =~= code@.skip(idx as int + 1));
            }
            let c = code.get_char(idx);
            if c == '\n' {
                let ghost cur0 = cur@;
                if cur.len() > 0 && cur[cur.len() - 1] == '\r' {
                    let _ = cur.pop();
                }
                proof {
                    assert(cur@ =~= strip_cr(cur0));
                }
                let frags = tokenize_line(&cur);
                let ghost pre = self.strings.deep_view();
                self.strings.push(frags);
                proof {
                    let m = |q: int, l: Seq<char>| frags_of_line(l);
                    assert(self.strings.deep_view() =~= pre.push(frags_of_line(strip_cr(cur0))));
                    assert(done.push(strip_cr(cur0)).map(m) =~= done.map(m).push(
                        frags_of_line(strip_cr(cur0)),
                    ));
                    done = done.push(strip_cr(cur0));
                }
                cur.clear();
                proof {
                    assert(cur@ =~= Seq::<char>::empty());
                    assert(lines_of(code@) =~= done + lines_from(code@.skip(idx as int + 1), cur@));
                }
            } else {
                cur.push(c);
            }
            idx = idx + 1;
        }
        proof {
            assert(code@.skip(n as int) =~= Seq::<char>::empty());
        }
        if cur.len() > 0 {
            let ghost cur0 = cur@;
            if cur[cur.len() - 1] == '\r' {
                let _ = cur.pop();
            }
            proof {
                assert(cur@ =~= strip_cr(cur0));
            }
            let frags = tokenize_line(&cur);
            let ghost pre = self.strings.deep_view();
            self.strings.push(frags);
            proof {
                let m = |q: int, l: Seq<char>| frags_of_line(l);
                assert(self.strings.deep_view() =~= pre.push(frags_of_line(strip_cr(cur0))));
                assert(done.push(strip_cr(cur0)).map(m) =~= done.map(m).push(
                    frags_of_line(strip_cr(cur0)),
                ));
                done = done.push(strip_cr(cur0));
            }
        }
        proof {
            assert(lines_of(code@) == done);
        }
    }
}

impl Lexer {
    /// The statement-level scanner: re-tokenize a captured raw body into
    /// semantic statement tokens, one Line per nonempty body line,
    /// assigning composite `(id + level, level)` identifiers as it goes.
    /// The bracket counters are reset to zero on entry; `start_ln` is the
    /// source line of the function header; the first body line is the
    /// remainder of that header line, so body line `i` sits on source
    /// line `start_ln + i`, and diagnostics cite that number.
    pub fn low_level(
        &mut self,
        code: Vec<Vec<String>>,
        start_ln: i64,
        id: i64,
        diag: &mut Diagnostics,
    ) -> (r: Vec<Line>)
        requires
            0 <= id <= SIZE_LIMIT,
            0 <= start_ln <= SIZE_LIMIT,
            code@.len() <= SIZE_LIMIT,
            count_all(code.deep_view()) <= SIZE_LIMIT,
        ensures
            lines_view(r@) == ll_result(code.deep_view(), start_ln as int, id as int).lines,
            final(diag)@ == old(diag)@ + ll_result(
                code.deep_view(),
                start_ln as int,
                id as int,
            ).errs,
            final(self).brackets.round == ll_result(
                code.deep_view(),
                start_ln as int,
                id as int,
            ).round,
            final(self).brackets.square == ll_result(
                code.deep_view(),
                start_ln as int,
                id as int,
            ).square,
            final(self).brackets.braces == ll_result(
                code.deep_view(),
                start_ln as int,
                id as int,
            ).braces,
            final(self).tmp_ast == old(self).tmp_ast,
            final(self).ast == old(self).ast,
            final(self).strings == old(self).strings,
    {
        let ghost dv = code.deep_view();
        let ghost fin = ll_result(dv, start_ln as int, id as int);
        let ghost total = count_all(dv);
        let mut round: i64 = 0;
        let mut square: i64 = 0;
        let mut braces: i64 = 0;
        let mut out: Vec<Line> = Vec::new();
        let mut cur: Vec<Token> = Vec::new();
        let mut i: usize = 0;
        let mut j: usize = 0;
        let ghost mut eacc: Seq<(int, Seq<char>)> = Seq::empty();
        proof {
            lemma_count_tail_nonneg(dv, 0);
            assert(tokens_view(cur@) =~= Seq::<TokV>::empty());
            assert(lines_view(out@) =~= Seq::<LineV>::empty());
            assert(diag@ =~= old(diag)@ + eacc);
        }
        while i < code.len()
            invariant
                dv == code.deep_view(),
                fin == ll_result(dv, start_ln as int, id as int),
                total == count_all(dv),
                0 <= id <= SIZE_LIMIT,
                0 <= start_ln <= SIZE_LIMIT,
                code@.len() <= SIZE_LIMIT,
                total <= SIZE_LIMIT,
                0 <= i <= code@.len(),
                i < code@.len() ==> j <= code@[i as int]@.len(),
                i == code@.len() ==> j == 0,
                0 <= count_from(dv, i as int, j as int) <= total,
                -(total - count_from(dv, i as int, j as int)) <= round <= total - count_from(
                    dv,
                    i as int,
                    j as int,
                ),
                -(total - count_from(dv, i as int, j as int)) <= square <= total - count_from(
                    dv,
                    i as int,
                    j as int,
                ),
                -(total - count_from(dv, i as int, j as int)) <= braces <= total - count_from(
                    dv,
                    i as int,
                    j as int,
                ),
                ll_from(
                    dv,
                    i as int,
                    j as int,
                    id as int,
                    start_ln as int,
                    round as int,
                    square as int,
                    braces as int,
                    tokens_view(cur@),
                    lines_view(out@),
                    eacc,
                ) == fin,
                diag@ == old(diag)@ + eacc,
                self.tmp_ast == old(self).tmp_ast,
                self.ast == old(self).ast,
                self.strings == old(self).strings,
                self.brackets == old(self).brackets,
            decreases code@.len() - i, rem_in_line(dv, i as int, j as int),
        {
            let ghost g_i = i as int;
            let ghost g_j = j as int;
            let ghost g_r = round as int;
            let ghost g_s = square as int;
            let ghost g_b = braces as int;
            let ghost g_cv = tokens_view(cur@);
            let ghost g_ov = lines_view(out@);
            let ghost g_e = eacc;
            let ghost g_ln = start_ln as int + g_i;
            proof {
                lemma_count_tail_nonneg(dv, g_i + 1);
                assert(count_tail(dv, g_i) == dv[g_i].len() + count_tail(dv, g_i + 1));
                assert(dv[g_i] == code@[g_i].deep_view());
                assert(dv[g_i].len() == code@[g_i]@.len());
            }
            let lnum: i64 = start_ln + (i as i64);
            let line_len = code[i].len();
            if line_len == 0 {
                i = i + 1;
                j = 0;
            } else if j >= line_len {
                let text = join_frags(&code[i]);
                let ghost g_text = text@;
                let ghost pre_cv = cur@;
                let lrec = Line { tokens: cur, as_string: text };
                proof {
                    assert(line_view(lrec) == LineV {
                        tokens: tokens_view(pre_cv),
                        as_string: g_text,
                    });
                    lemma_lines_view_push(out@, lrec);
                }
                out.push(lrec);
                cur = Vec::new();
                proof {
                    assert(tokens_view(cur@) =~= Seq::<TokV>::empty());
                }
                i = i + 1;
                j = 0;
            } else {
                proof {
                    assert(dv[g_i][g_j] == code@[g_i]@[g_j]@);
                }
                let f = &code[i][j];
                if frag_is(f, "let") {
                    if line_len - j <= 2 {
                        diag.report(lnum, MSG_WRONG_SYNTAX);
                        proof {
                            eacc = eacc.push((g_ln, MSG_WRONG_SYNTAX@));
                        }
                        j = line_len;
                    } else {
                        proof {
                            assert(dv[g_i][g_j + 2] == code@[g_i]@[g_j + 2]@);
                        }
                        if !frag_is(&code[i][j + 2], "=") {
                            diag.report(lnum, MSG_EXPECTED_EQ);
                            proof {
                                eacc = eacc.push((g_ln, MSG_EXPECTED_EQ@));
                            }
                            j = j + 3;
                        } else {
                            let has_open = range_contains(&code[i], j + 3, line_len, "[");
                            let has_close = range_contains(&code[i], j + 3, line_len, "]");
                            if has_open && !has_close {
                                diag.report(lnum, MSG_MULTILINE_ARRAY);
                                proof {
                                    eacc = eacc.push((g_ln, MSG_MULTILINE_ARRAY@));
                                }
                                j = line_len;
                            } else {
                                let exp = generate_expression(&code[i], j + 3, line_len, lnum);
                                proof {
                                    assert(dv[g_i][g_j + 1] == code@[g_i]@[g_j + 1]@);
                                    assert(code@[g_i].deep_view().subrange(
                                        g_j + 3,
                                        code@[g_i]@.len() as int,
                                    ) =~= dv[g_i].subrange(g_j + 3, dv[g_i].len() as int));
                                }
                                let t = Token::Var(
                                    token::Let { name: code[i][j + 1].clone(), exp },
                                );
                                let ghost pre = cur@;
                                cur.push(t);
                                proof {
                                    lemma_tokens_view_push(pre, t);
                                }
                                j = line_len;
                            }
                        }
                    }
                } else if frag_is(f, "if") {
                    let k = find_frag(&code[i], j + 1, "{");
                    proof {
                        assert(code@[g_i].deep_view() == dv[g_i]);
                    }
                    if k >= line_len {
                        diag.report(lnum, MSG_EXPECTED_OPEN_BRACE);
                        proof {
                            eacc = eacc.push((g_ln, MSG_EXPECTED_OPEN_BRACE@));
                        }
                        j = line_len;
                    } else if k == j + 1 {
                        diag.report(lnum, MSG_EXPECTED_CONDITION);
                        proof {
                            eacc = eacc.push((g_ln, MSG_EXPECTED_CONDITION@));
                            assert(dv[g_i].subrange(g_j + 1, k as int).len() == 0);
                        }
                        braces = braces + 1;
                        j = k + 1;
                    } else {
                        let exp = generate_expression(&code[i], j + 1, k, lnum);
                        braces = braces + 1;
                        let t = Token::If(token::If::new(exp, id, braces));
                        let ghost pre = cur@;
                        cur.push(t);
                        proof {
                            lemma_tokens_view_push(pre, t);
                        }
                        j = k + 1;
                    }
                } else if frag_is(f, "else") {
                    if line_len - j <= 1 {
                        diag.report(lnum, MSG_EXPECTED_BRACE_OR_IF);
                        proof {
                            eacc = eacc.push((g_ln, MSG_EXPECTED_BRACE_OR_IF@));
                        }
                        j = j + 1;
                    } else {
                        proof {
                            assert(dv[g_i][g_j + 1] == code@[g_i]@[g_j + 1]@);
                        }
                        if frag_is(&code[i][j + 1], "if") {
                            let k = find_frag(&code[i], j + 2, "{");
                            proof {
                                assert(code@[g_i].deep_view() == dv[g_i]);
                            }
                            if k >= line_len {
                                diag.report(lnum, MSG_EXPECTED_OPEN_BRACE);
                                proof {
                                    eacc = eacc.push((g_ln, MSG_EXPECTED_OPEN_BRACE@));
                                }
                                j = line_len;
                            } else if k == j + 2 {
                                diag.report(lnum, MSG_EXPECTED_CONDITION);
                                proof {
                                    eacc = eacc.push((g_ln, MSG_EXPECTED_CONDITION@));
                                    assert(dv[g_i].subrange(g_j + 2, k as int).len() == 0);
                                }
                                braces = braces + 1;
                                j = k + 1;
                            } else {
                                let exp = generate_expression(&code[i], j + 2, k, lnum);
                                braces = braces + 1;
                                let t = Token::ElseIf(token::If::new(exp, id, braces));
                                let ghost pre = cur@;
                                cur.push(t);
                                proof {
                                    lemma_tokens_view_push(pre, t);
                                }
                                j = k + 1;
                            }
                        } else if frag_is(&code[i][j + 1], "{") {
                            let t = Token::Else(token::Else::new(id, braces));
                            let ghost pre = cur@;
                            cur.push(t);
                            proof {
                                lemma_tokens_view_push(pre, t);
                            }
                            braces = braces + 1;
                            j = j + 2;
                        } else {
                            diag.report(lnum, MSG_EXPECTED_BRACE_OR_IF);
                            proof {
                                eacc = eacc.push((g_ln, MSG_EXPECTED_BRACE_OR_IF@));
                            }
                            j = j + 2;
                        }
                    }
                } else if frag_is(f, "for") {
                    if line_len - j <= 1 {
                        diag.report(lnum, MSG_EXPECTED_VAR_NAME);
                        proof {
                            eacc = eacc.push((g_ln, MSG_EXPECTED_VAR_NAME@));
                        }
                        j = j + 1;
                    } else {
                        proof {
                            if g_j + 2 < dv[g_i].len() {
                                assert(dv[g_i][g_j + 2] == code@[g_i]@[g_j + 2]@);
                            }
                        }
                        if line_len - j > 2 && frag_is(&code[i][j + 2], "in") {
                            let k = find_frag(&code[i], j + 3, "{");
                            proof {
                                assert(code@[g_i].deep_view() == dv[g_i]);
                            }
                            if k >= line_len {
                                diag.report(lnum, MSG_EXPECTED_OPEN_BRACE);
                                proof {
                                    eacc = eacc.push((g_ln, MSG_EXPECTED_OPEN_BRACE@));
                                }
                                j = line_len;
                            } else if k == j + 3 {
                                diag.report(lnum, MSG_EXPECTED_ITER);
                                proof {
                                    eacc = eacc.push((g_ln, MSG_EXPECTED_ITER@));
                                    assert(dv[g_i].subrange(g_j + 3, k as int).len() == 0);
                                }
                                braces = braces + 1;
                                j = k + 1;
                            } else {
                                let exp = generate_expression(&code[i], j + 3, k, lnum);
                                proof {
                                    assert(dv[g_i][g_j + 1] == code@[g_i]@[g_j + 1]@);
                                }
                                braces = braces + 1;
                                let t = Token::For(
                                    token::For::new(code[i][j + 1].clone(), exp, id, braces),
                                );
                                let ghost pre = cur@;
                                cur.push(t);
                                proof {
                                    lemma_tokens_view_push(pre, t);
                                }
                                j = k + 1;
                            }
                        } else {
                            diag.report(lnum, MSG_EXPECTED_IN);
                            proof {
                                eacc = eacc.push((g_ln, MSG_EXPECTED_IN@));
                            }
                            j = if line_len - j > 2 {
                                j + 3
                            } else {
                                j + 2
                            };
                        }
                    }
                } else if frag_is(f, "}") {
                    let t = Token::End(token::Br::new(id, braces));
                    let ghost pre = cur@;
                    cur.push(t);
                    proof {
                        lemma_tokens_view_push(pre, t);
                    }
                    braces = braces - 1;
                    j = j + 1;
                } else if frag_is(f, "[") {
                    let t = Token::OpenSqBr(token::Br::new(id, square));
                    let ghost pre = cur@;
                    cur.push(t);
                    proof {
                        lemma_tokens_view_push(pre, t);
                    }
                    square = square + 1;
                    j = j + 1;
                } else if frag_is(f, "]") {
                    let t = Token::CloseSqBr(token::Br::new(id, square));
                    let ghost pre = cur@;
                    cur.push(t);
                    proof {
                        lemma_tokens_view_push(pre, t);
                    }
                    square = square - 1;
                    j = j + 1;
                } else if frag_is(f, "(") {
                    let t = Token::OpenRoBr(token::Br::new(id, round));
                    let ghost pre = cur@;
                    cur.push(t);
                    proof {
                        lemma_tokens_view_push(pre, t);
                    }
                    round = round + 1;
                    j = j + 1;
                } else if frag_is(f, ")") {
                    let t = Token::CloseRoBr(token::Br::new(id, round));
                    let ghost pre = cur@;
                    cur.push(t);
                    proof {
                        lemma_tokens_view_push(pre, t);
                    }
                    round = round - 1;
                    j = j + 1;
                } else if frag_is(f, ",") {
                    let t = Token::Comma;
                    let ghost pre = cur@;
                    cur.push(t);
                    proof {
                        lemma_tokens_view_push(pre, t);
                    }
                    j = j + 1;
                } else if frag_is(f, "loop") {
                    if line_len - j <= 1 {
                        j = j + 1;
                    } else {
                        proof {
                            assert(dv[g_i][g_j + 1] == code@[g_i]@[g_j + 1]@);
                        }
                        if frag_is(&code[i][j + 1], "{") {
                            braces = braces + 1;
                            let t = Token::Loop(token::Loop { id: braces });
                            let ghost pre = cur@;
                            cur.push(t);
                            proof {
                                lemma_tokens_view_push(pre, t);
                            }
                            j = j + 2;
                        } else {
                            diag.report(lnum, MSG_EXPECTED_OPEN_BRACE);
                            proof {
                                eacc = eacc.push((g_ln, MSG_EXPECTED_OPEN_BRACE@));
                            }
                            j = j + 2;
                        }
                    }
                } else if f.as_str().is_empty() {
                    j = j + 1;
                } else if frag_is(f, "yield") {
                    if line_len - j > 1 {
                        let exp = generate_expression(&code[i], j + 1, line_len, lnum);
                        proof {
                            assert(code@[g_i].deep_view().subrange(g_j + 1, code@[g_i]@.len() as int)
                                =~= dv[g_i].subrange(g_j + 1, dv[g_i].len() as int));
                        }
                        let t = Token::Yield(exp);
                        let ghost pre = cur@;
                        cur.push(t);
                        proof {
                            lemma_tokens_view_push(pre, t);
                        }
                        j = line_len;
                    } else {
                        diag.report(lnum, MSG_EXPECTED_EXP_YIELD);
                        proof {
                            eacc = eacc.push((g_ln, MSG_EXPECTED_EXP_YIELD@));
                        }
                        j = j + 1;
                    }
                } else if frag_is(f, "return") {
                    if line_len - j > 1 {
                        let exp = generate_expression(&code[i], j + 1, line_len, lnum);
                        proof {
                            assert(code@[g_i].deep_view().subrange(g_j + 1, code@[g_i]@.len() as int)
                                =~= dv[g_i].subrange(g_j + 1, dv[g_i].len() as int));
                        }
                        let t = Token::Return(exp);
                        let ghost pre = cur@;
                        cur.push(t);
                        proof {
                            lemma_tokens_view_push(pre, t);
                        }
                        j = line_len;
                    } else {
                        diag.report(lnum, MSG_EXPECTED_EXP_RETURN);
                        proof {
                            eacc = eacc.push((g_ln, MSG_EXPECTED_EXP_RETURN@));
                        }
                        j = j + 1;
                    }
                } else {
                    proof {
                        if g_j + 1 < dv[g_i].len() {
                            assert(dv[g_i][g_j + 1] == code@[g_i]@[g_j + 1]@);
                        }
                    }
                    if line_len - j > 1 && frag_is(&code[i][j + 1], "=") {
                        if line_len - j > 2 {
                            let exp = generate_expression(&code[i], j + 2, line_len, lnum);
                            proof {
                                assert(code@[g_i].deep_view().subrange(
                                    g_j + 2,
                                    code@[g_i]@.len() as int,
                                ) =~= dv[g_i].subrange(g_j + 2, dv[g_i].len() as int));
                            }
                            let t = Token::Assign(token::Assign { var: f.clone(), exp });
                            let ghost pre = cur@;
                            cur.push(t);
                            proof {
                                lemma_tokens_view_push(pre, t);
                            }
                            j = line_len;
                        } else {
                            diag.report(lnum, MSG_EXPECTED_EXP_ASSIGN);
                            proof {
                                eacc = eacc.push((g_ln, MSG_EXPECTED_EXP_ASSIGN@));
                            }
                            j = j + 2;
                        }
                    } else {
                        let t = Token::Generic(f.clone());
                        let ghost pre = cur@;
                        cur.push(t);
                        proof {
                            lemma_tokens_view_push(pre, t);
                        }
                        j = j + 1;
                    }
                }
            }
            proof {
                assert(ll_from(
                    dv,
                    g_i,
                    g_j,
                    id as int,
                    start_ln as int,
                    g_r,
                    g_s,
                    g_b,
                    g_cv,
                    g_ov,
                    g_e,
                ) == ll_from(
                    dv,
                    i as int,
                    j as int,
                    id as int,
                    start_ln as int,
                    round as int,
                    square as int,
                    braces as int,
                    tokens_view(cur@),
                    lines_view(out@),
                    eacc,
                ));
            }
        }
        self.brackets = Brackets { round, square, braces };
        proof {
            assert(lines_view(out@) == fin.lines);
            assert(diag@ =~= old(diag)@ + fin.errs);
        }
        out
    }
}

/// A function-body capture in flight: the parsed header, the body line
/// being accumulated, and the lines captured so far.
struct CaptureSt {
    kind: FunctionType,
    name: String,
    args: Vec<Arg>,
    ret: String,
    start_ln: i64,
    temp: Vec<String>,
    body: Vec<Vec<String>>,
}

/// What the top-level scanner is doing.
enum TlSt {
    Scan(FunctionType),
    Capture(CaptureSt),
}

spec fn capture_view(c: CaptureSt) -> CapSt {
    CapSt {
        kind: c.kind,
        name: c.name@,
        args: crate::lexer::model::args_view(c.args@),
        ret: c.ret@,
        start_ln: c.start_ln as int,
        temp: c.temp.deep_view(),
        body: c.body.deep_view(),
    }
}

spec fn tl_st_view(m: TlSt) -> TlMode {
    match m {
        TlSt::Scan(p) => TlMode::Scan(p),
        TlSt::Capture(c) => TlMode::Capture(capture_view(c)),
    }
}

impl Lexer {
    /// The top-level scanner: tokenize the source, then walk the per-line
    /// fragment sequences recognizing file-scope constructs — imports,
    /// bindings, comments, and function declarations whose bodies are
    /// captured verbatim under brace counting. The bracket counters start
    /// from zero and are owned by the scan.
    #[verifier::rlimit(100)]
    #[verifier::spinoff_prover]
    pub fn top_level(&mut self, code: &str, diag: &mut Diagnostics)
        requires
            code@.len() <= 0x0400000000000000,
        ensures
            final(self).strings.deep_view() == strings_of(code@),
            tokens_view(final(self).tmp_ast@) == tokens_view(old(self).tmp_ast@) + tl_result(
                strings_of(code@),
            ).toks,
            final(self).ast == old(self).ast,
            final(self).brackets.round == tl_result(strings_of(code@)).round,
            final(self).brackets.square == tl_result(strings_of(code@)).square,
            final(self).brackets.braces == tl_result(strings_of(code@)).braces,
            final(diag)@ == old(diag)@ + gs_errs(code@) + tl_result(strings_of(code@)).errs,
    {
        self.generate_strings(code, diag);
        let ghost dv = strings_of(code@);
        let ghost fin = tl_result(dv);
        let ghost total = count_all(dv);
        let ghost diag1 = diag@;
        proof {
            lemma_strings_count(code@);
            lemma_count_tail_nonneg(dv, 0);
        }
        let mut mode = TlSt::Scan(FunctionType::Function);
        let mut round: i64 = 0;
        let mut square: i64 = 0;
        let mut braces: i64 = 0;
        let mut i: usize = 0;
        let mut j: usize = 0;
        let ghost mut tacc: Seq<TokV> = Seq::empty();
        let ghost mut eacc: Seq<(int, Seq<char>)> = Seq::empty();
        proof {
            assert(tokens_view(self.tmp_ast@) =~= tokens_view(old(self).tmp_ast@) + tacc);
            assert(diag@ =~= diag1 + eacc);
        }
        while i < self.strings.len()
            invariant
                dv == self.strings.deep_view(),
                fin == tl_result(dv),
                total == count_all(dv),
                total <= SIZE_LIMIT,
                dv.len() <= SIZE_LIMIT,
                0 <= i <= dv.len(),
                i < dv.len() ==> j <= dv[i as int].len(),
                i == dv.len() ==> j == 0,
                self.strings@.len() == dv.len(),
                0 <= count_from(dv, i as int, j as int) <= total,
                -(total - count_from(dv, i as int, j as int)) <= round <= total - count_from(
                    dv,
                    i as int,
                    j as int,
                ),
                -(total - count_from(dv, i as int, j as int)) <= square <= total - count_from(
                    dv,
                    i as int,
                    j as int,
                ),
                -(total - count_from(dv, i as int, j as int)) <= braces <= total - count_from(
                    dv,
                    i as int,
                    j as int,
                ),
                mode matches TlSt::Capture(c) ==> 1 <= c.start_ln <= dv.len(),
                tl_from(
                    dv,
                    i as int,
                    j as int,
                    tl_st_view(mode),
                    round as int,
                    square as int,
                    braces as int,
                    tacc,
                    eacc,
                ) == fin,
                tokens_view(self.tmp_ast@) == tokens_view(old(self).tmp_ast@) + tacc,
                diag@ == diag1 + eacc,
                diag1 == old(diag)@ + gs_errs(code@),
                self.ast == old(self).ast,
                self.brackets == old(self).brackets,
            decreases dv.len() - i, rem_in_line(dv, i as int, j as int),
        {
            let ghost g_i = i as int;
            let ghost g_j = j as int;
            let ghost g_r = round as int;
            let ghost g_s = square as int;
            let ghost g_b = braces as int;
            let ghost g_mode = tl_st_view(mode);
            let ghost g_t = tacc;
            let ghost g_e = eacc;
            let ghost g_ln = g_i + 1;
            proof {
                lemma_count_tail_nonneg(dv, g_i + 1);
                crate::lexer::semantics::lemma_count_tail_mono(dv, g_i);
                assert(count_tail(dv, g_i) == dv[g_i].len() + count_tail(dv, g_i + 1));
                assert(dv[g_i] == self.strings@[g_i].deep_view());
                assert(dv[g_i].len() == self.strings@[g_i]@.len());
                assert(dv[g_i].len() <= total);
            }
            let lnum: i64 = 1 + (i as i64);
            let line_len = self.strings[i].len();
            if j >= line_len {
                match mode {
                    TlSt::Scan(_) => {
                        i = i + 1;
                        j = 0;
                    },
                    TlSt::Capture(cst) => {
                        let CaptureSt { kind, name, args, ret, start_ln, temp, mut body } = cst;
                        let ghost b0 = body.deep_view();
                        let ghost t0 = temp.deep_view();
                        body.push(temp);
                        proof {
                            assert(body.deep_view() =~= b0.push(t0));
                        }
                        let temp2: Vec<String> = Vec::new();
                        proof {
                            assert(temp2.deep_view() =~= Seq::<Seq<char>>::empty());
                        }
                        mode = TlSt::Capture(
                            CaptureSt { kind, name, args, ret, start_ln, temp: temp2, body },
                        );
                        i = i + 1;
                        j = 0;
                    },
                }
            } else {
                proof {
                    assert(dv[g_i][g_j] == self.strings@[g_i]@[g_j]@);
                }
                match mode {
                    TlSt::Capture(cst) => {
                        let is_open = frag_is(&self.strings[i][j], "{");
                        let is_close = if is_open {
                            false
                        } else {
                            frag_is(&self.strings[i][j], "}")
                        };
                        if is_open {
                            let CaptureSt { kind, name, args, ret, start_ln, mut temp, body } =
                                cst;
                            let ghost t0 = temp.deep_view();
                            temp.push(self.strings[i][j].clone());
                            proof {
                                assert(temp.deep_view() =~= t0.push(dv[g_i][g_j]));
                            }
                            mode = TlSt::Capture(
                                CaptureSt { kind, name, args, ret, start_ln, temp, body },
                            );
                            braces = braces + 1;
                            j = j + 1;
                        } else if is_close && braces == 1 {
                            let CaptureSt { kind, name, args, ret, start_ln, temp, mut body } =
                                cst;
                            let ghost b0 = body.deep_view();
                            let ghost t0 = temp.deep_view();
                            body.push(temp);
                            proof {
                                assert(body.deep_view() =~= b0.push(t0));
                            }
                            let newf = token::Function {
                                name,
                                arguments: args,
                                return_type: ret,
                                lines: Vec::new(),
                                tmp_lines: body,
                                start_ln,
                            };
                            let tok: Token = match kind {
                                FunctionType::Function => Token::Function(newf),
                                FunctionType::Loop => Token::LoopFunction(newf),
                                FunctionType::Generator => Token::GeneratorFunction(newf),
                            };
                            proof {
                                assert(crate::lexer::model::lines_view(Seq::<Line>::empty())
                                    =~= Seq::<crate::lexer::model::LineV>::empty());
                                assert(token_view(tok) == crate::lexer::semantics::fn_token_of(
                                    capture_view(cst),
                                    b0.push(t0),
                                ));
                                lemma_tokens_view_push(self.tmp_ast@, tok);
                            }
                            let ghost pre = self.tmp_ast@;
                            self.tmp_ast.push(tok);
                            proof {
                                tacc = tacc.push(token_view(self.tmp_ast@.last()));
                                assert(tokens_view(self.tmp_ast@) =~= tokens_view(
                                    old(self).tmp_ast@,
                                ) + tacc);
                            }
                            mode = TlSt::Scan(FunctionType::Function);
                            braces = 0;
                            j = j + 1;
                        } else {
                            let CaptureSt { kind, name, args, ret, start_ln, mut temp, body } =
                                cst;
                            let ghost t0 = temp.deep_view();
                            temp.push(self.strings[i][j].clone());
                            proof {
                                assert(temp.deep_view() =~= t0.push(dv[g_i][g_j]));
                            }
                            mode = TlSt::Capture(
                                CaptureSt { kind, name, args, ret, start_ln, temp, body },
                            );
                            if is_close {
                                braces = braces - 1;
                            }
                            j = j + 1;
                        }
                    },
                    TlSt::Scan(pending) => {
                        if frag_is(&self.strings[i][j], "loop") {
                            mode = TlSt::Scan(FunctionType::Loop);
                            j = j + 1;
                        } else if frag_is(&self.strings[i][j], "gen") {
                            mode = TlSt::Scan(FunctionType::Generator);
                            j = j + 1;
                        } else if frag_is(&self.strings[i][j], "fn") {
                            round = 0;
                            square = 0;
                            braces = 0;
                            let sig = {
                                let line = &self.strings[i];
                                scan_signature(line, j, lnum, diag)
                            };
                            match sig {
                                SigOut::NextLine { round: ro } => {
                                    round = ro;
                                    mode = TlSt::Scan(pending);
                                    i = i + 1;
                                    j = 0;
                                    proof {
                                        if let SigRes::NextLine { errs: e, .. } = parse_sig(
                                            dv[g_i],
                                            g_j,
                                            g_ln,
                                        ) {
                                            eacc = eacc + e;
                                        }
                                    }
                                },
                                SigOut::Resume { nj, round: ro } => {
                                    round = ro;
                                    mode = TlSt::Scan(pending);
                                    j = nj;
                                    proof {
                                        if let SigRes::Resume { errs: e, .. } = parse_sig(
                                            dv[g_i],
                                            g_j,
                                            g_ln,
                                        ) {
                                            eacc = eacc + e;
                                        }
                                    }
                                },
                                SigOut::Enter { name, args, ret, nj, round: ro } => {
                                    round = ro;
                                    braces = 1;
                                    let temp2: Vec<String> = Vec::new();
                                    let body2: Vec<Vec<String>> = Vec::new();
                                    proof {
                                        assert(temp2.deep_view() =~= Seq::<Seq<char>>::empty());
                                        assert(body2.deep_view() =~= Seq::<
                                            Seq<Seq<char>>,
                                        >::empty());
                                    }
                                    mode = TlSt::Capture(
                                        CaptureSt {
                                            kind: pending,
                                            name,
                                            args,
                                            ret,
                                            start_ln: lnum,
                                            temp: temp2,
                                            body: body2,
                                        },
                                    );
                                    j = nj;
                                    proof {
                                        if let SigRes::Enter { errs: e, .. } = parse_sig(
                                            dv[g_i],
                                            g_j,
                                            g_ln,
                                        ) {
                                            eacc = eacc + e;
                                        }
                                    }
                                },
                            }
                        } else if frag_is(&self.strings[i][j], "//") {
                            let text = join_frags_from(&self.strings[i], j + 1);
                            let tok = Token::Comment(text);
                            proof {
                                lemma_tokens_view_push(self.tmp_ast@, tok);
                            }
                            self.tmp_ast.push(tok);
                            proof {
                                tacc = tacc.push(token_view(self.tmp_ast@.last()));
                                assert(tokens_view(self.tmp_ast@) =~= tokens_view(
                                    old(self).tmp_ast@,
                                ) + tacc);
                            }
                            mode = TlSt::Scan(pending);
                            i = i + 1;
                            j = 0;
                        } else if frag_is(&self.strings[i][j], "const") || frag_is(
                            &self.strings[i][j],
                            "global",
                        ) {
                            let is_const = frag_is(&self.strings[i][j], "const");
                            if line_len - j <= 2 {
                                diag.report(lnum, MSG_WRONG_SYNTAX);
                                proof {
                                    eacc = eacc.push((g_ln, MSG_WRONG_SYNTAX@));
                                }
                                mode = TlSt::Scan(pending);
                                i = i + 1;
                                j = 0;
                            } else {
                                proof {
                                    assert(dv[g_i][g_j + 2] == self.strings@[g_i]@[g_j + 2]@);
                                }
                                if !frag_is(&self.strings[i][j + 2], "=") {
                                    diag.report(lnum, MSG_EXPECTED_EQ);
                                    proof {
                                        eacc = eacc.push((g_ln, MSG_EXPECTED_EQ@));
                                    }
                                    mode = TlSt::Scan(pending);
                                    j = j + 3;
                                } else {
                                    let has_open = range_contains(
                                        &self.strings[i],
                                        j + 3,
                                        line_len,
                                        "[",
                                    );
                                    let has_close = range_contains(
                                        &self.strings[i],
                                        j + 3,
                                        line_len,
                                        "]",
                                    );
                                    if has_open && !has_close {
                                        diag.report(lnum, MSG_MULTILINE_ARRAY);
                                        proof {
                                            eacc = eacc.push((g_ln, MSG_MULTILINE_ARRAY@));
                                        }
                                        mode = TlSt::Scan(pending);
                                        i = i + 1;
                                        j = 0;
                                    } else {
                                        let exp = generate_expression(
                                            &self.strings[i],
                                            j + 3,
                                            line_len,
                                            lnum,
                                        );
                                        proof {
                                            assert(dv[g_i][g_j + 1] == self.strings@[g_i]@[g_j
                                                + 1]@);
                                            assert(self.strings@[g_i].deep_view().subrange(
                                                g_j + 3,
                                                self.strings@[g_i]@.len() as int,
                                            ) =~= dv[g_i].subrange(g_j + 3, dv[g_i].len() as int));
                                        }
                                        let lt = token::Let {
                                            name: self.strings[i][j + 1].clone(),
                                            exp,
                                        };
                                        let tok: Token = if is_const {
                                            Token::Const(lt)
                                        } else {
                                            Token::Global(lt)
                                        };
                                        proof {
                                            lemma_tokens_view_push(self.tmp_ast@, tok);
                                        }
                                        self.tmp_ast.push(tok);
                                        proof {
                                            tacc = tacc.push(token_view(self.tmp_ast@.last()));
                                            assert(tokens_view(self.tmp_ast@) =~= tokens_view(
                                                old(self).tmp_ast@,
                                            ) + tacc);
                                        }
                                        mode = TlSt::Scan(pending);
                                        i = i + 1;
                                        j = 0;
                                    }
                                }
                            }
                        } else if frag_is(&self.strings[i][j], "#") {
                            if line_len - j <= 1 {
                                diag.report(lnum, MSG_EXPECTED_SOMETHING);
                                proof {
                                    eacc = eacc.push((g_ln, MSG_EXPECTED_SOMETHING@));
                                }
                                mode = TlSt::Scan(pending);
                                j = j + 1;
                            } else {
                                proof {
                                    assert(dv[g_i][g_j + 1] == self.strings@[g_i]@[g_j + 1]@);
                                }
                                if frag_is(&self.strings[i][j + 1], "include") {
                                    if line_len - j <= 2 {
                                        diag.report(lnum, MSG_EXPECTED_PATH);
                                        proof {
                                            eacc = eacc.push((g_ln, MSG_EXPECTED_PATH@));
                                        }
                                        mode = TlSt::Scan(pending);
                                        j = j + 2;
                                    } else {
                                        proof {
                                            assert(dv[g_i][g_j + 2] == self.strings@[g_i]@[g_j
                                                + 2]@);
                                        }
                                        let tok = Token::CImport(self.strings[i][j + 2].clone());
                                        proof {
                                            lemma_tokens_view_push(self.tmp_ast@, tok);
                                        }
                                        self.tmp_ast.push(tok);
                                        proof {
                                            tacc = tacc.push(token_view(self.tmp_ast@.last()));
                                            assert(tokens_view(self.tmp_ast@) =~= tokens_view(
                                                old(self).tmp_ast@,
                                            ) + tacc);
                                        }
                                        mode = TlSt::Scan(pending);
                                        j = j + 3;
                                    }
                                } else {
                                    diag.report(lnum, MSG_UNIMPLEMENTED);
                                    proof {
                                        eacc = eacc.push((g_ln, MSG_UNIMPLEMENTED@));
                                    }
                                    mode = TlSt::Scan(pending);
                                    j = j + 2;
                                }
                            }
                        } else if self.strings[i][j].as_str().is_empty() {
                            mode = TlSt::Scan(pending);
                            j = j + 1;
                        } else {
                            let tok = Token::Unknown(self.strings[i][j].clone());
                            proof {
                                lemma_tokens_view_push(self.tmp_ast@, tok);
                            }
                            self.tmp_ast.push(tok);
                            diag.report(lnum, MSG_UNEXPECTED_TOKEN);
                            proof {
                                tacc = tacc.push(token_view(self.tmp_ast@.last()));
                                assert(tokens_view(self.tmp_ast@) =~= tokens_view(
                                    old(self).tmp_ast@,
                                ) + tacc);
                                eacc = eacc.push((g_ln, MSG_UNEXPECTED_TOKEN@));
                            }
                            mode = TlSt::Scan(pending);
                            j = j + 1;
                        }
                    },
                }
            }
            proof {
                assert(tl_from(dv, g_i, g_j, g_mode, g_r, g_s, g_b, g_t, g_e) == tl_from(
                    dv,
                    i as int,
                    j as int,
                    tl_st_view(mode),
                    round as int,
                    square as int,
                    braces as int,
                    tacc,
                    eacc,
                ));
            }
        }
        if let TlSt::Capture(cst) = &mode {
            diag.report(cst.start_ln, MSG_UNABLE_TO_PARSE_FN);
            proof {
                eacc = eacc.push((capture_view(*cst).start_ln, MSG_UNABLE_TO_PARSE_FN@));
            }
        }
        self.brackets = Brackets { round, square, braces };
        proof {
            assert(tokens_view(self.tmp_ast@) == tokens_view(old(self).tmp_ast@) + fin.toks);
            assert(diag@ =~= old(diag)@ + gs_errs(code@) + fin.errs);
        }
    }
}

/// The header data of one provisional function token, copied out of the
/// list so that the body can be re-scanned.
struct FnParts {
    kind: FunctionType,
    name: String,
    args: Vec<Arg>,
    ret: String,
    tmp: Vec<Vec<String>>,
    start_ln: i64,
}

/// Copy the header data out of a function-kind token; `None` for every
/// other token.
fn extract_fn_parts(t: &Token) -> (r: Option<FnParts>)
    ensures
        match token_view(*t) {
            TokV::Function(fv) => {
                &&& r matches Some(p)
                &&& p.kind == FunctionType::Function
                &&& p.name@ == fv.name
                &&& crate::lexer::model::args_view(p.args@) == fv.arguments
                &&& p.ret@ == fv.return_type
                &&& p.tmp.deep_view() == fv.tmp_lines
                &&& p.tmp@.len() == fv.tmp_lines.len()
                &&& p.start_ln as int == fv.start_ln
            },
            TokV::LoopFunction(fv) => {
                &&& r matches Some(p)
                &&& p.kind == FunctionType::Loop
                &&& p.name@ == fv.name
                &&& crate::lexer::model::args_view(p.args@) == fv.arguments
                &&& p.ret@ == fv.return_type
                &&& p.tmp.deep_view() == fv.tmp_lines
                &&& p.tmp@.len() == fv.tmp_lines.len()
                &&& p.start_ln as int == fv.start_ln
            },
            TokV::GeneratorFunction(fv) => {
                &&& r matches Some(p)
                &&& p.kind == FunctionType::Generator
                &&& p.name@ == fv.name
                &&& crate::lexer::model::args_view(p.args@) == fv.arguments
                &&& p.ret@ == fv.return_type
                &&& p.tmp.deep_view() == fv.tmp_lines
                &&& p.tmp@.len() == fv.tmp_lines.len()
                &&& p.start_ln as int == fv.start_ln
            },
            _ => r is None,
        },
{
    match t {
        Token::Function(f) => Some(
            FnParts {
                kind: FunctionType::Function,
                name: f.name.clone(),
                args: crate::lexer::dup::copy_args(&f.arguments),
                ret: f.return_type.clone(),
                tmp: crate::strutil::clone_string_vecs(&f.tmp_lines),
                start_ln: f.start_ln,
            },
        ),
        Token::LoopFunction(f) => Some(
            FnParts {
                kind: FunctionType::Loop,
                name: f.name.clone(),
                args: crate::lexer::dup::copy_args(&f.arguments),
                ret: f.return_type.clone(),
                tmp: crate::strutil::clone_string_vecs(&f.tmp_lines),
                start_ln: f.start_ln,
            },
        ),
        Token::GeneratorFunction(f) => Some(
            FnParts {
                kind: FunctionType::Generator,
                name: f.name.clone(),
                args: crate::lexer::dup::copy_args(&f.arguments),
                ret: f.return_type.clone(),
                tmp: crate::strutil::clone_string_vecs(&f.tmp_lines),
                start_ln: f.start_ln,
            },
        ),
        _ => None,
    }
}

impl Lexer {
    /// The whole pipeline: scan the top level, then finalize every
    /// function-kind token in the provisional list by re-scanning its
    /// captured body. Identity values come from a deterministic counter —
    /// one per function, in order of appearance — so the output is
    /// reproducible across runs.
    #[verifier::rlimit(100)]
    #[verifier::spinoff_prover]
    pub fn parse(&mut self, code: &str, diag: &mut Diagnostics)
        requires
            code@.len() <= 0x0400000000000000,
            old(self).tmp_ast@.len() <= 0x0400000000000000,
            forall|k: int|
                0 <= k < old(self).tmp_ast@.len() ==> provisional_ok(
                    token_view(#[trigger] old(self).tmp_ast@[k]),
                    SIZE_LIMIT as int,
                    SIZE_LIMIT as int,
                ),
        ensures
            tokens_view(final(self).tmp_ast@) == tokens_view(old(self).tmp_ast@) + tl_result(
                strings_of(code@),
            ).toks,
            final(self).strings.deep_view() == strings_of(code@),
            tokens_view(final(self).ast@) == tokens_view(old(self).ast@) + parse_fin(
                code@,
                tokens_view(old(self).tmp_ast@),
            ).toks,
            final(diag)@ == old(diag)@ + gs_errs(code@) + tl_result(strings_of(code@)).errs
                + parse_fin(code@, tokens_view(old(self).tmp_ast@)).errs,
            final(self).brackets.round == parse_fin(
                code@,
                tokens_view(old(self).tmp_ast@),
            ).round,
            final(self).brackets.square == parse_fin(
                code@,
                tokens_view(old(self).tmp_ast@),
            ).square,
            final(self).brackets.braces == parse_fin(
                code@,
                tokens_view(old(self).tmp_ast@),
            ).braces,
    {
        self.top_level(code, diag);
        let ghost tl = tl_result(strings_of(code@));
        let ghost allv = tokens_view(self.tmp_ast@);
        let ghost fin = parse_fin(code@, tokens_view(old(self).tmp_ast@));
        let ghost diag1 = diag@;
        let ghost tmp1 = self.tmp_ast@;
        let ghost strings1 = self.strings@;
        proof {
            lemma_strings_count(code@);
            crate::lexer::semantics::lemma_tl_sizes(
                strings_of(code@),
                0,
                0,
                TlMode::Scan(FunctionType::Function),
                0,
                0,
                0,
                Seq::empty(),
                Seq::empty(),
            );
            crate::lexer::model::lemma_tokens_view(old(self).tmp_ast@);
            crate::lexer::model::lemma_tokens_view(self.tmp_ast@);
            lemma_count_tail_nonneg(strings_of(code@), 0);
            assert(allv =~= tokens_view(old(self).tmp_ast@) + tl.toks);
            assert(tl.toks.len() <= count_all(strings_of(code@)) + 1);
            assert(allv.len() <= SIZE_LIMIT);
            assert(fin == finalize_from(
                allv,
                0,
                0,
                Seq::empty(),
                Seq::empty(),
                tl.round,
                tl.square,
                tl.braces,
            ));
            assert forall|k: int| 0 <= k < allv.len() implies provisional_ok(
                #[trigger] allv[k],
                SIZE_LIMIT as int,
                SIZE_LIMIT as int,
            ) by {
                let oldn = old(self).tmp_ast@.len() as int;
                if k < oldn {
                    assert(allv[k] == token_view(old(self).tmp_ast@[k]));
                } else {
                    assert(allv[k] == tl.toks[k - oldn]);
                    assert(provisional_ok(
                        tl.toks[k - oldn],
                        count_all(strings_of(code@)),
                        strings_of(code@).len() + 1int,
                    ));
                }
            }
        }
        let mut k: usize = 0;
        let mut idc: i64 = 0;
        let ghost mut aacc: Seq<TokV> = Seq::empty();
        let ghost mut eacc: Seq<(int, Seq<char>)> = Seq::empty();
        proof {
            assert(tokens_view(self.ast@) =~= tokens_view(old(self).ast@) + aacc);
            assert(diag@ =~= diag1 + eacc);
        }
        while k < self.tmp_ast.len()
            invariant
                self.tmp_ast@ == tmp1,
                self.strings@ == strings1,
                allv == tokens_view(tmp1),
                allv.len() == tmp1.len(),
                tmp1.len() <= SIZE_LIMIT,
                forall|m: int|
                    0 <= m < allv.len() ==> provisional_ok(
                        #[trigger] allv[m],
                        SIZE_LIMIT as int,
                        SIZE_LIMIT as int,
                    ),
                forall|m: int|
                    0 <= m < tmp1.len() ==> #[trigger] allv[m] == token_view(tmp1[m]),
                0 <= k <= tmp1.len(),
                0 <= idc <= k,
                fin == finalize_from(
                    allv,
                    k as int,
                    idc as int,
                    aacc,
                    eacc,
                    self.brackets.round as int,
                    self.brackets.square as int,
                    self.brackets.braces as int,
                ),
                tokens_view(self.ast@) == tokens_view(old(self).ast@) + aacc,
                diag@ == diag1 + eacc,
            decreases tmp1.len() - k,
        {
            let ghost g_k = k as int;
            let ghost g_id = idc as int;
            let ghost g_a = aacc;
            let ghost g_e = eacc;
            let ghost g_r = self.brackets.round as int;
            let ghost g_s = self.brackets.square as int;
            let ghost g_b = self.brackets.braces as int;
            let ghost t_v = allv[g_k];
            let parts = extract_fn_parts(&self.tmp_ast[k]);
            match parts {
                Option::Some(p) => {
                    let ghost fv = match t_v {
                        TokV::Function(fv) => fv,
                        TokV::LoopFunction(fv) => fv,
                        TokV::GeneratorFunction(fv) => fv,
                        _ => arbitrary(),
                    };
                    proof {
                        assert(t_v == token_view(tmp1[g_k]));
                        assert(provisional_ok(t_v, SIZE_LIMIT as int, SIZE_LIMIT as int));
                        assert(count_all(p.tmp.deep_view()) == count_all(fv.tmp_lines));
                    }
                    let tmp2 = crate::strutil::clone_string_vecs(&p.tmp);
                    let ghost llr = ll_result(fv.tmp_lines, fv.start_ln, g_id);
                    let lns = self.low_level(tmp2, p.start_ln, idc, diag);
                    proof {
                        eacc = eacc + llr.errs;
                        assert(diag@ =~= diag1 + eacc);
                    }
                    let newf = token::Function {
                        name: p.name,
                        arguments: p.args,
                        return_type: p.ret,
                        lines: lns,
                        tmp_lines: p.tmp,
                        start_ln: p.start_ln,
                    };
                    let tok: Token = match p.kind {
                        FunctionType::Function => Token::Function(newf),
                        FunctionType::Loop => Token::LoopFunction(newf),
                        FunctionType::Generator => Token::GeneratorFunction(newf),
                    };
                    let ghost newfv = crate::lexer::model::FunV {
                        name: fv.name,
                        arguments: fv.arguments,
                        return_type: fv.return_type,
                        lines: llr.lines,
                        tmp_lines: fv.tmp_lines,
                        start_ln: fv.start_ln,
                    };
                    proof {
                        match t_v {
                            TokV::Function(_) => {
                                assert(token_view(tok) == TokV::Function(newfv));
                            },
                            TokV::LoopFunction(_) => {
                                assert(token_view(tok) == TokV::LoopFunction(newfv));
                            },
                            TokV::GeneratorFunction(_) => {
                                assert(token_view(tok) == TokV::GeneratorFunction(newfv));
                            },
                            _ => {},
                        }
                        lemma_tokens_view_push(self.ast@, tok);
                    }
                    self.ast.push(tok);
                    proof {
                        aacc = aacc.push(token_view(self.ast@.last()));
                        assert(tokens_view(self.ast@) =~= tokens_view(old(self).ast@) + aacc);
                    }
                    idc = idc + 1;
                    k = k + 1;
                    proof {
                        assert(finalize_from(allv, g_k, g_id, g_a, g_e, g_r, g_s, g_b)
                            == finalize_from(
                            allv,
                            g_k + 1,
                            g_id + 1,
                            g_a.push(token_view(self.ast@.last())),
                            g_e + llr.errs,
                            self.brackets.round as int,
                            self.brackets.square as int,
                            self.brackets.braces as int,
                        ));
                    }
                },
                Option::None => {
                    let tok = crate::lexer::dup::copy_token(&self.tmp_ast[k]);
                    proof {
                        assert(token_view(tok) == t_v);
                        lemma_tokens_view_push(self.ast@, tok);
                    }
                    self.ast.push(tok);
                    proof {
                        aacc = aacc.push(t_v);
                        assert(tokens_view(self.ast@) =~= tokens_view(old(self).ast@) + aacc);
                    }
                    k = k + 1;
                    proof {
                        assert(finalize_from(allv, g_k, g_id, g_a, g_e, g_r, g_s, g_b)
                            == finalize_from(
                            allv,
                            g_k + 1,
                            g_id,
                            g_a.push(t_v),
                            g_e,
                            g_r,
                            g_s,
                            g_b,
                        ));
                    }
                },
            }
        }
        proof {
            assert(fin.toks == aacc);
            assert(fin.errs == eacc);
            assert(diag@ =~= old(diag)@ + gs_errs(code@) + tl.errs + fin.errs);
        }
    }
}

/// Relies on `rand::thread_rng` and `rand::Rng::gen_range` over
/// `0..=i32::MAX`: a draw from that range. Nothing beyond the range is
/// promised of the result; two calls may differ.
#[verifier::external_body]
fn random_function_id() -> (r: i64)
    ensures
        0 <= r <= 0x7fffffff,
{
    rand::Rng::gen_range(&mut rand::thread_rng(), 0..=i32::MAX) as i64
}

impl Lexer {
    /// The pipeline as `parse` runs it, but with each function's identity
    /// value drawn at random instead of counted. Whatever values come
    /// back, the stream equals the finalizing pass run with that sequence
    /// of draws; the counted variant is the reproducible one.
    #[verifier::rlimit(100)]
    #[verifier::spinoff_prover]
    pub fn parse_random(&mut self, code: &str, diag: &mut Diagnostics)
        requires
            code@.len() <= 0x0400000000000000,
            old(self).tmp_ast@.len() <= 0x0400000000000000,
            forall|k: int|
                0 <= k < old(self).tmp_ast@.len() ==> provisional_ok(
                    token_view(#[trigger] old(self).tmp_ast@[k]),
                    SIZE_LIMIT as int,
                    SIZE_LIMIT as int,
                ),
        ensures
            tokens_view(final(self).tmp_ast@) == tokens_view(old(self).tmp_ast@) + tl_result(
                strings_of(code@),
            ).toks,
            final(self).strings.deep_view() == strings_of(code@),
            exists|ids: Seq<int>|
                #![trigger finalize_with(
                    tokens_view(old(self).tmp_ast@) + tl_result(strings_of(code@)).toks,
                    0,
                    ids,
                    Seq::empty(),
                    Seq::empty(),
                    tl_result(strings_of(code@)).round,
                    tl_result(strings_of(code@)).square,
                    tl_result(strings_of(code@)).braces,
                )]
                {
                    let tl = tl_result(strings_of(code@));
                    let fr = finalize_with(
                        tokens_view(old(self).tmp_ast@) + tl.toks,
                        0,
                        ids,
                        Seq::empty(),
                        Seq::empty(),
                        tl.round,
                        tl.square,
                        tl.braces,
                    );
                    &&& (forall|n: int| 0 <= n < ids.len() ==> 0 <= #[trigger] ids[n] <= 0x7fffffff)
                    &&& tokens_view(final(self).ast@) == tokens_view(old(self).ast@) + fr.toks
                    &&& final(diag)@ == old(diag)@ + gs_errs(code@) + tl.errs + fr.errs
                    &&& final(self).brackets.round == fr.round
                    &&& final(self).brackets.square == fr.square
                    &&& final(self).brackets.braces == fr.braces
                },
    {
        self.top_level(code, diag);
        let ghost tl = tl_result(strings_of(code@));
        let ghost allv = tokens_view(self.tmp_ast@);
        let ghost diag1 = diag@;
        let ghost tmp1 = self.tmp_ast@;
        let ghost strings1 = self.strings@;
        proof {
            lemma_strings_count(code@);
            crate::lexer::semantics::lemma_tl_sizes(
                strings_of(code@),
                0,
                0,
                TlMode::Scan(FunctionType::Function),
                0,
                0,
                0,
                Seq::empty(),
                Seq::empty(),
            );
            crate::lexer::model::lemma_tokens_view(old(self).tmp_ast@);
            crate::lexer::model::lemma_tokens_view(self.tmp_ast@);
            lemma_count_tail_nonneg(strings_of(code@), 0);
            assert(allv =~= tokens_view(old(self).tmp_ast@) + tl.toks);
            assert forall|k: int| 0 <= k < allv.len() implies provisional_ok(
                #[trigger] allv[k],
                SIZE_LIMIT as int,
                SIZE_LIMIT as int,
            ) by {
                let oldn = old(self).tmp_ast@.len() as int;
                if k < oldn {
                    assert(allv[k] == token_view(old(self).tmp_ast@[k]));
                } else {
                    assert(allv[k] == tl.toks[k - oldn]);
                    assert(provisional_ok(
                        tl.toks[k - oldn],
                        count_all(strings_of(code@)),
                        strings_of(code@).len() + 1int,
                    ));
                }
            }
        }
        let mut k: usize = 0;
        let ghost mut gids: Seq<int> = Seq::empty();
        let ghost mut aacc: Seq<TokV> = Seq::empty();
        let ghost mut eacc: Seq<(int, Seq<char>)> = Seq::empty();
        proof {
            assert(tokens_view(self.ast@) =~= tokens_view(old(self).ast@) + aacc);
            assert(diag@ =~= diag1 + eacc);
            assert forall|rest: Seq<int>|
                #[trigger] finalize_with(
                    allv,
                    0,
                    rest,
                    aacc,
                    eacc,
                    self.brackets.round as int,
                    self.brackets.square as int,
                    self.brackets.braces as int,
                ) == finalize_with(
                    allv,
                    0,
                    gids + rest,
                    Seq::empty(),
                    Seq::empty(),
                    tl.round,
                    tl.square,
                    tl.braces,
                ) by {
                assert(gids + rest =~= rest);
            }
        }
        while k < self.tmp_ast.len()
            invariant
                self.tmp_ast@ == tmp1,
                self.strings@ == strings1,
                allv == tokens_view(tmp1),
                allv.len() == tmp1.len(),
                forall|m: int|
                    0 <= m < allv.len() ==> provisional_ok(
                        #[trigger] allv[m],
                        SIZE_LIMIT as int,
                        SIZE_LIMIT as int,
                    ),
                forall|m: int|
                    0 <= m < tmp1.len() ==> #[trigger] allv[m] == token_view(tmp1[m]),
                0 <= k <= tmp1.len(),
                forall|n: int| 0 <= n < gids.len() ==> 0 <= #[trigger] gids[n] <= 0x7fffffff,
                forall|rest: Seq<int>|
                    #[trigger] finalize_with(
                        allv,
                        k as int,
                        rest,
                        aacc,
                        eacc,
                        self.brackets.round as int,
                        self.brackets.square as int,
                        self.brackets.braces as int,
                    ) == finalize_with(
                        allv,
                        0,
                        gids + rest,
                        Seq::empty(),
                        Seq::empty(),
                        tl.round,
                        tl.square,
                        tl.braces,
                    ),
                tokens_view(self.ast@) == tokens_view(old(self).ast@) + aacc,
                diag@ == diag1 + eacc,
            decreases tmp1.len() - k,
        {
            let ghost g_k = k as int;
            let ghost g_a = aacc;
            let ghost g_e = eacc;
            let ghost g_ids = gids;
            let ghost g_r = self.brackets.round as int;
            let ghost g_s = self.brackets.square as int;
            let ghost g_b = self.brackets.braces as int;
            let ghost t_v = allv[g_k];
            let parts = extract_fn_parts(&self.tmp_ast[k]);
            match parts {
                Option::Some(p) => {
                    let ghost fv = match t_v {
                        TokV::Function(fv) => fv,
                        TokV::LoopFunction(fv) => fv,
                        TokV::GeneratorFunction(fv) => fv,
                        _ => arbitrary(),
                    };
                    proof {
                        assert(t_v == token_view(tmp1[g_k]));
                        assert(provisional_ok(t_v, SIZE_LIMIT as int, SIZE_LIMIT as int));
                        assert(count_all(p.tmp.deep_view()) == count_all(fv.tmp_lines));
                    }
                    let idv = random_function_id();
                    let ghost d = idv as int;
                    let tmp2 = crate::strutil::clone_string_vecs(&p.tmp);
                    let ghost llr = ll_result(fv.tmp_lines, fv.start_ln, d);
                    let lns = self.low_level(tmp2, p.start_ln, idv, diag);
                    proof {
                        eacc = eacc + llr.errs;
                        assert(diag@ =~= diag1 + eacc);
                    }
                    let newf = token::Function {
                        name: p.name,
                        arguments: p.args,
                        return_type: p.ret,
                        lines: lns,
                        tmp_lines: p.tmp,
                        start_ln: p.start_ln,
                    };
                    let tok: Token = match p.kind {
                        FunctionType::Function => Token::Function(newf),
                        FunctionType::Loop => Token::LoopFunction(newf),
                        FunctionType::Generator => Token::GeneratorFunction(newf),
                    };
                    let ghost newfv = crate::lexer::model::FunV {
                        name: fv.name,
                        arguments: fv.arguments,
                        return_type: fv.return_type,
                        lines: llr.lines,
                        tmp_lines: fv.tmp_lines,
                        start_ln: fv.start_ln,
                    };
                    proof {
                        match t_v {
                            TokV::Function(_) => {
                                assert(token_view(tok) == TokV::Function(newfv));
                            },
                            TokV::LoopFunction(_) => {
                                assert(token_view(tok) == TokV::LoopFunction(newfv));
                            },
                            TokV::GeneratorFunction(_) => {
                                assert(token_view(tok) == TokV::GeneratorFunction(newfv));
                            },
                            _ => {},
                        }
                        lemma_tokens_view_push(self.ast@, tok);
                    }
                    self.ast.push(tok);
                    proof {
                        aacc = aacc.push(token_view(self.ast@.last()));
                        assert(tokens_view(self.ast@) =~= tokens_view(old(self).ast@) + aacc);
                        gids = gids.push(d);
                    }
                    k = k + 1;
                    proof {
                        assert forall|rest: Seq<int>|
                            #[trigger] finalize_with(
                                allv,
                                k as int,
                                rest,
                                aacc,
                                eacc,
                                self.brackets.round as int,
                                self.brackets.square as int,
                                self.brackets.braces as int,
                            ) == finalize_with(
                                allv,
                                0,
                                gids + rest,
                                Seq::empty(),
                                Seq::empty(),
                                tl.round,
                                tl.square,
                                tl.braces,
                            ) by {
                            let rest0 = seq![d] + rest;
                            assert(finalize_with(allv, g_k, rest0, g_a, g_e, g_r, g_s, g_b)
                                == finalize_with(
                                allv,
                                0,
                                g_ids + rest0,
                                Seq::empty(),
                                Seq::empty(),
                                tl.round,
                                tl.square,
                                tl.braces,
                            ));
                            assert(g_ids + rest0 =~= gids + rest);
                            assert(rest0[0] == d);
                            assert(rest0.drop_first() =~= rest);
                            assert(finalize_with(allv, g_k, rest0, g_a, g_e, g_r, g_s, g_b)
                                == finalize_with(
                                allv,
                                k as int,
                                rest,
                                aacc,
                                eacc,
                                self.brackets.round as int,
                                self.brackets.square as int,
                                self.brackets.braces as int,
                            ));
                        }
                    }
                },
                Option::None => {
                    let tok = crate::lexer::dup::copy_token(&self.tmp_ast[k]);
                    proof {
                        assert(token_view(tok) == t_v);
                        lemma_tokens_view_push(self.ast@, tok);
                    }
                    self.ast.push(tok);
                    proof {
                        aacc = aacc.push(t_v);
                        assert(tokens_view(self.ast@) =~= tokens_view(old(self).ast@) + aacc);
                    }
                    k = k + 1;
                    proof {
                        assert forall|rest: Seq<int>|
                            #[trigger] finalize_with(
                                allv,
                                k as int,
                                rest,
                                aacc,
                                eacc,
                                self.brackets.round as int,
                                self.brackets.square as int,
                                self.brackets.braces as int,
                            ) == finalize_with(
                                allv,
                                0,
                                gids + rest,
                                Seq::empty(),
                                Seq::empty(),
                                tl.round,
                                tl.square,
                                tl.braces,
                            ) by {
                            assert(finalize_with(allv, g_k, rest, g_a, g_e, g_r, g_s, g_b)
                                == finalize_with(
                                allv,
                                0,
                                g_ids + rest,
                                Seq::empty(),
                                Seq::empty(),
                                tl.round,
                                tl.square,
                                tl.braces,
                            ));
                        }
                    }
                },
            }
        }
        proof {
            let fr = finalize_with(
                allv,
                0,
                gids,
                Seq::empty(),
                Seq::empty(),
                tl.round,
                tl.square,
                tl.braces,
            );
            assert(finalize_with(
                allv,
                tmp1.len() as int,
                Seq::<int>::empty(),
                aacc,
                eacc,
                self.brackets.round as int,
                self.brackets.square as int,
                self.brackets.braces as int,
            ) == finalize_with(
                allv,
                0,
                gids + Seq::<int>::empty(),
                Seq::empty(),
                Seq::empty(),
                tl.round,
                tl.square,
                tl.braces,
            ));
            assert(gids + Seq::<int>::empty() =~= gids);
            assert(fr.toks == aacc);
            assert(fr.errs == eacc);
            assert(diag@ =~= old(diag)@ + gs_errs(code@) + tl.errs + fr.errs);
            assert(tokens_view(old(self).tmp_ast@) + tl.toks == allv);
            let fr2 = finalize_with(
                tokens_view(old(self).tmp_ast@) + tl_result(strings_of(code@)).toks,
                0,
                gids,
                Seq::empty(),
                Seq::empty(),
                tl_result(strings_of(code@)).round,
                tl_result(strings_of(code@)).square,
                tl_result(strings_of(code@)).braces,
            );
            assert(fr2 == fr);
        }
    }
}

/// The outcome of scanning a `fn` signature: give up on the line, resume
/// plain scanning at `nj`, or enter body capture at `nj` with the parsed
/// header data.
enum SigOut {
    NextLine { round: i64 },
    Resume { nj: usize, round: i64 },
    Enter { name: String, args: Vec<Arg>, ret: String, nj: usize, round: i64 },
}

/// Scan a `fn` signature beginning at fragment `j`, reporting every
/// malformed shape, exactly as `parse_sig` describes.
fn scan_signature(line: &Vec<String>, j: usize, lnum: i64, diag: &mut Diagnostics) -> (r: SigOut)
    requires
        j < line@.len(),
        line@.len() as int <= SIZE_LIMIT as int,
    ensures
        ({
            let sr = parse_sig(line.deep_view(), j as int, lnum as int);
            match sr {
                SigRes::NextLine { errs, round } => {
                    &&& r matches SigOut::NextLine { round: ro } && ro as int == round && 0 <= ro
                        <= line@.len() - j
                    &&& final(diag)@ == old(diag)@ + errs
                },
                SigRes::Resume { errs, off, round } => {
                    &&& r matches SigOut::Resume { nj, round: ro } && ro as int == round && nj
                        as int == (if j + 1 + off <= line@.len() {
                        j + 1 + off
                    } else {
                        line@.len() as int
                    }) && 0 <= ro <= nj - j && j < nj <= line@.len()
                    &&& final(diag)@ == old(diag)@ + errs
                },
                SigRes::Enter { errs, name, args, ret, off, round } => {
                    &&& r matches SigOut::Enter { name: n2, args: a2, ret: rt2, nj, round: ro }
                        && n2@ == name && crate::lexer::model::args_view(a2@) == args && rt2@
                        == ret && ro as int == round && nj as int == (if j + 1 + off
                        <= line@.len() {
                        j + 1 + off
                    } else {
                        line@.len() as int
                    }) && 0 <= ro <= nj - j && j < nj <= line@.len()
                    &&& final(diag)@ == old(diag)@ + errs
                },
            }
        }),
{
    let ghost ldv = line.deep_view();
    let llen = line.len();
    if llen - j <= 2 {
        diag.report(lnum, MSG_EXPECTED_FN_NAME_AND_BRACKET);
        proof {
            assert(diag@ =~= old(diag)@ + seq![
                (lnum as int, MSG_EXPECTED_FN_NAME_AND_BRACKET@),
            ]);
        }
        return SigOut::NextLine { round: 0 };
    }
    proof {
        assert(ldv[j as int + 1] == line@[j as int + 1]@);
        assert(ldv[j as int + 2] == line@[j as int + 2]@);
    }
    if frag_is(&line[j + 1], "(") {
        diag.report(lnum, MSG_EXPECTED_FN_NAME);
        proof {
            assert(diag@ =~= old(diag)@ + seq![(lnum as int, MSG_EXPECTED_FN_NAME@)]);
        }
        return SigOut::NextLine { round: 0 };
    }
    if !frag_is(&line[j + 2], "(") {
        diag.report(lnum, MSG_EXPECTED_OPENING_BRACKET);
        proof {
            assert(diag@ =~= old(diag)@ + seq![(lnum as int, MSG_EXPECTED_OPENING_BRACKET@)]);
        }
        return SigOut::Resume { nj: j + 3, round: 0 };
    }
    // collect the argument run up to `)`, reporting nested `(`
    let rpos = find_frag(line, j + 3, ")");
    let found_r = rpos < llen;
    let bound = if found_r {
        rpos
    } else {
        llen
    };
    let ghost argfrags = ldv.subrange(j as int + 3, bound as int);
    let mut k: usize = j + 3;
    let mut nested: i64 = 0;
    let ghost mut nerrs: Seq<(int, Seq<char>)> = Seq::empty();
    proof {
        assert(ldv.subrange(j as int + 3, j as int + 3) =~= Seq::<Seq<char>>::empty());
        assert(nested_paren_errs(ldv.subrange(j as int + 3, j as int + 3), lnum as int)
            =~= Seq::<(int, Seq<char>)>::empty());
        assert(diag@ =~= old(diag)@ + nerrs);
    }
    while k < bound
        invariant
            j + 3 <= k <= bound <= line@.len(),
            line@.len() as int <= SIZE_LIMIT as int,
            ldv == line.deep_view(),
            nested as int == nested_paren_count(ldv.subrange(j as int + 3, k as int)),
            nerrs == nested_paren_errs(ldv.subrange(j as int + 3, k as int), lnum as int),
            0 <= nested <= k - (j + 3),
            diag@ == old(diag)@ + nerrs,
        decreases bound - k,
    {
        let ghost pre = ldv.subrange(j as int + 3, k as int);
        proof {
            assert(ldv.subrange(j as int + 3, k as int + 1).drop_last() =~= pre);
            assert(ldv.subrange(j as int + 3, k as int + 1).last() == ldv[k as int]);
            assert(ldv[k as int] == line@[k as int]@);
        }
        if frag_is(&line[k], "(") {
            nested = nested + 1;
            diag.report(lnum, MSG_UNEXPECTED_OPENING_BRACKET);
            proof {
                nerrs = nerrs.push((lnum as int, MSG_UNEXPECTED_OPENING_BRACKET@));
                assert(nested_paren_errs(ldv.subrange(j as int + 3, k as int + 1), lnum as int)
                    =~= nerrs);
            }
        } else {
            proof {
                assert(nested_paren_errs(ldv.subrange(j as int + 3, k as int + 1), lnum as int)
                    =~= nerrs);
            }
        }
        k = k + 1;
    }
    proof {
        assert(ldv.subrange(j as int + 3, bound as int) =~= argfrags);
        assert(nerrs == nested_paren_errs(argfrags, lnum as int));
        assert(nested as int == nested_paren_count(argfrags));
    }
    // parse the collected arguments
    let mut args: Vec<Arg> = Vec::new();
    let mut pos: usize = j + 3;
    let ghost mut aerrs: Seq<(int, Seq<char>)> = Seq::empty();
    let ghost pa = parse_args(argfrags, lnum as int);
    proof {
        assert(crate::lexer::model::args_view(args@) =~= Seq::<
            crate::lexer::model::ArgV,
        >::empty());
    }
    while pos < bound
        invariant
            j + 3 <= pos <= bound <= line@.len(),
            ldv == line.deep_view(),
            argfrags == ldv.subrange(j as int + 3, bound as int),
            parse_args_from(
                argfrags,
                pos - (j + 3),
                lnum as int,
                crate::lexer::model::args_view(args@),
                aerrs,
            ) == pa,
            diag@ == old(diag)@ + nerrs + aerrs,
            nerrs == nested_paren_errs(argfrags, lnum as int),
        decreases bound - pos,
    {
        let ghost p0 = pos - (j + 3);
        let ghost av0 = crate::lexer::model::args_view(args@);
        let ghost ae0 = aerrs;
        proof {
            assert(argfrags[p0 as int] == ldv[pos as int]);
            assert(ldv[pos as int] == line@[pos as int]@);
        }
        let x = &line[pos];
        if x.as_str().is_empty() {
            diag.report(lnum, MSG_EXPECTED_ARG_NAME);
            proof {
                aerrs = aerrs.push((lnum as int, MSG_EXPECTED_ARG_NAME@));
                assert(parse_args_from(argfrags, p0 as int, lnum as int, av0, ae0)
                    == parse_args_from(argfrags, p0 + 1, lnum as int, av0, aerrs));
            }
            pos = pos + 1;
        } else if !ends_with_colon(x) {
            diag.report(lnum, MSG_EXPECTED_COLON);
            proof {
                aerrs = aerrs.push((lnum as int, MSG_EXPECTED_COLON@));
                assert(parse_args_from(argfrags, p0 as int, lnum as int, av0, ae0)
                    == parse_args_from(argfrags, p0 + 1, lnum as int, av0, aerrs));
            }
            pos = pos + 1;
        } else {
            let t_end = find_frag_within(line, j + 3, bound, pos + 1, ",");
            proof {
                assert(t_end as int == pos + 1 + find_off(argfrags, p0 + 1, ","@));
            }
            if t_end == pos + 1 {
                diag.report(lnum, MSG_EXPECTED_ARG_TYPE);
                proof {
                    aerrs = aerrs.push((lnum as int, MSG_EXPECTED_ARG_TYPE@));
                    assert(parse_args_from(argfrags, p0 as int, lnum as int, av0, ae0)
                        == parse_args_from(argfrags, p0 + 1, lnum as int, av0, aerrs));
                }
                pos = pos + 1;
            } else {
                let ty = concat_range(line, pos + 1, t_end);
                let nm = drop_last_char(x);
                proof {
                    assert(argfrags.subrange(p0 + 1, t_end - (j + 3)) =~= ldv.subrange(
                        pos as int + 1,
                        t_end as int,
                    ));
                }
                let a = Arg { name: nm, type_: ty };
                let ghost a_v = crate::lexer::model::arg_view(a);
                args.push(a);
                proof {
                    assert(crate::lexer::model::args_view(args@) =~= av0.push(a_v));
                    let te_spec = p0 + 1 + find_off(argfrags, p0 + 1, ","@);
                    assert(te_spec == t_end - (j + 3));
                    assert(a_v == crate::lexer::model::ArgV {
                        name: argfrags[p0 as int].drop_last(),
                        type_: concat_frags(argfrags.subrange(p0 + 1, if te_spec
                            <= argfrags.len() {
                            te_spec
                        } else {
                            argfrags.len() as int
                        })),
                    });
                    assert(parse_args_from(argfrags, p0 as int, lnum as int, av0, ae0)
                        == parse_args_from(argfrags, if te_spec < argfrags.len() {
                        te_spec + 1
                    } else {
                        argfrags.len() as int
                    }, lnum as int, av0.push(a_v), ae0));
                }
                pos = if t_end < bound {
                    t_end + 1
                } else {
                    bound
                };
            }
        }
    }
    proof {
        assert(parse_args_from(
            argfrags,
            argfrags.len() as int,
            lnum as int,
            crate::lexer::model::args_view(args@),
            aerrs,
        ) == pa);
        assert(pa.0 == crate::lexer::model::args_view(args@));
        assert(pa.1 == aerrs);
    }
    // after the argument list: `{`, or `:` with a return type
    let p = if found_r {
        rpos + 1
    } else {
        llen
    };
    let round1: i64 = 1 + nested - (if found_r {
        1i64
    } else {
        0i64
    });
    if p >= llen {
        diag.report(lnum, MSG_EXPECTED_BRACES);
        proof {
            assert(diag@ =~= old(diag)@ + (nerrs + aerrs + seq![
                (lnum as int, MSG_EXPECTED_BRACES@),
            ]));
        }
        return SigOut::NextLine { round: round1 };
    }
    proof {
        assert(ldv[p as int] == line@[p as int]@);
    }
    if frag_is(&line[p], "{") {
        proof {
            assert(diag@ =~= old(diag)@ + (nerrs + aerrs));
        }
        return SigOut::Enter {
            name: line[j + 1].clone(),
            args,
            ret: RET_VOID.to_owned(),
            nj: p + 1,
            round: round1,
        };
    } else if frag_is(&line[p], ":") {
        let ret: String;
        let ghost mut rerrs: Seq<(int, Seq<char>)> = Seq::empty();
        if llen - p > 1 {
            proof {
                assert(ldv[p as int + 1] == line@[p as int + 1]@);
            }
            ret = line[p + 1].clone();
        } else {
            diag.report(lnum, MSG_EXPECTED_RETURN_TYPE);
            proof {
                rerrs = seq![(lnum as int, MSG_EXPECTED_RETURN_TYPE@)];
            }
            ret = RET_VOID.to_owned();
        }
        let ghost mut berrs: Seq<(int, Seq<char>)> = Seq::empty();
        if llen - p > 2 {
            proof {
                assert(ldv[p as int + 2] == line@[p as int + 2]@);
            }
            if !frag_is(&line[p + 2], "{") {
                diag.report(lnum, MSG_EXPECTED_BRACES);
                proof {
                    berrs = seq![(lnum as int, MSG_EXPECTED_BRACES@)];
                }
            }
        }
        let nj = if llen - p >= 3 {
            p + 3
        } else {
            llen
        };
        proof {
            assert(diag@ =~= old(diag)@ + (nerrs + aerrs + rerrs + berrs));
        }
        return SigOut::Enter { name: line[j + 1].clone(), args, ret, nj, round: round1 };
    } else {
        diag.report(lnum, MSG_EXPECTED_BRACES_OR_COLON);
        proof {
            assert(diag@ =~= old(diag)@ + (nerrs + aerrs + seq![
                (lnum as int, MSG_EXPECTED_BRACES_OR_COLON@),
            ]));
        }
        return SigOut::Resume { nj: p + 1, round: round1 };
    }
}

/// Zero lines come only of zero characters (given an empty in-progress
/// line).
proof fn lemma_lines_len_zero(s: Seq<char>, cur: Seq<char>)
    ensures
        (lines_from(s, cur).len() == 0) == (s.len() == 0 && cur.len() == 0),
    decreases s.len(),
{
    if s.len() > 0 && s[0] != '\n' {
        lemma_lines_len_zero(s.drop_first(), cur.push(s[0]));
    }
}

/// Whether the character always forms a fragment of its own.
fn is_delim_char(c: char) -> (r: bool)
    ensures
        r == is_delim(c),
{
    c == '(' || c == ')' || c == '{' || c == '}' || c == '[' || c == ']' || c == ',' || c == '='
        || c == '+' || c == '-' || c == '*' || c == '"' || c == '#'
}

/// Split one line into fragments: maximal runs of non-delimiter,
/// non-space characters, single delimiters, and the `//` digraph; spaces
/// separate; the final (possibly empty) buffer is always emitted.
fn tokenize_line(chars: &Vec<char>) -> (r: Vec<String>)
    ensures
        r.deep_view() == frags_of_line(chars@),
{
    let mut out: Vec<String> = Vec::new();
    let mut buf = String::new();
    let mut k: usize = 0;
    proof {
        assert(chars@.skip(0) =~= chars@);
        assert(out.deep_view() =~= Seq::<Seq<char>>::empty());
        assert(frags_of_line(chars@) =~= out.deep_view() + frags_from(chars@.skip(0), buf@));
    }
    while k < chars.len()
        invariant
            0 <= k <= chars@.len(),
            frags_of_line(chars@) == out.deep_view() + frags_from(chars@.skip(k as int), buf@),
        decreases chars@.len() - k,
    {
        let ghost rest = chars@.skip(k as int);
        let ghost b0 = buf@;
        proof {
            assert(rest.len() > 0);
            assert(rest[0] == chars@[k as int]);
            assert(rest.drop_first() =~= chars@.skip(k as int + 1));
        }
        let c = chars[k];
        if c == ' ' {
            if !buf.as_str().is_empty() {
                let ghost pre = out.deep_view();
                out.push(buf);
                buf = String::new();
                proof {
                    assert(out.deep_view() =~= pre.push(b0));
                }
            } else {
                proof {
                    assert(b0 =~= Seq::<char>::empty());
                }
            }
            proof {
                assert(frags_of_line(chars@) =~= out.deep_view() + frags_from(
                    chars@.skip(k as int + 1),
                    buf@,
                ));
            }
            k = k + 1;
        } else if c == '/' {
            let ghost pre0 = out.deep_view();
            if !buf.as_str().is_empty() {
                out.push(buf);
                buf = String::new();
                proof {
                    assert(out.deep_view() =~= pre0.push(b0));
                }
            } else {
                proof {
                    assert(b0 =~= Seq::<char>::empty());
                }
            }
            if k + 1 < chars.len() && chars[k + 1] == '/' {
                proof {
                    assert(rest.drop_first().len() > 0);
                    assert(rest.drop_first()[0] == chars@[k as int + 1]);
                    assert(rest.drop_first().drop_first() =~= chars@.skip(k as int + 2));
                }
                let mut dd = String::new();
                dd.push('/');
                dd.push('/');
                let ghost pre = out.deep_view();
                proof {
                    assert(dd@ =~= seq!['/', '/']);
                }
                out.push(dd);
                proof {
                    assert(out.deep_view() =~= pre.push(seq!['/', '/']));
                    assert(frags_of_line(chars@) =~= out.deep_view() + frags_from(
                        chars@.skip(k as int + 2),
                        buf@,
                    ));
                }
                k = k + 2;
            } else {
                let mut d = String::new();
                d.push('/');
                let ghost pre = out.deep_view();
                proof {
                    assert(d@ =~= seq!['/']);
                }
                out.push(d);
                proof {
                    assert(out.deep_view() =~= pre.push(seq!['/']));
                    assert(frags_of_line(chars@) =~= out.deep_view() + frags_from(
                        chars@.skip(k as int + 1),
                        buf@,
                    ));
                }
                k = k + 1;
            }
        } else if is_delim_char(c) {
            let ghost pre0 = out.deep_view();
            if !buf.as_str().is_empty() {
                out.push(buf);
                buf = String::new();
                proof {
                    assert(out.deep_view() =~= pre0.push(b0));
                }
            } else {
                proof {
                    assert(b0 =~= Seq::<char>::empty());
                }
            }
            let mut d = String::new();
            d.push(c);
            let ghost pre = out.deep_view();
            proof {
                assert(d@ =~= seq![c]);
            }
            out.push(d);
            proof {
                assert(out.deep_view() =~= pre.push(seq![c]));
                assert(frags_of_line(chars@) =~= out.deep_view() + frags_from(
                    chars@.skip(k as int + 1),
                    buf@,
                ));
            }
            k = k + 1;
        } else {
            buf.push(c);
            proof {
                assert(frags_of_line(chars@) =~= out.deep_view() + frags_from(
                    chars@.skip(k as int + 1),
                    buf@,
                ));
            }
            k = k + 1;
        }
    }
    proof {
        assert(chars@.skip(chars@.len() as int) =~= Seq::<char>::empty());
    }
    let ghost pre = out.deep_view();
    let ghost b0 = buf@;
    out.push(buf);
    proof {
        assert(out.deep_view() =~= pre.push(b0));
        assert(frags_of_line(chars@) =~= out.deep_view());
    }
    out
}

/// The expression sub-tokenizer: classify the fragments
/// `strings[from..to]` into operator tags and opaque value atoms, with no
/// precedence, grouping or associativity. The line number is carried only
/// for interface parity: this stage reports nothing.
pub fn generate_expression(strings: &Vec<String>, from: usize, to: usize, _line_number: i64) -> (r:
    Vec<Token>)
    requires
        from <= to <= strings@.len(),
    ensures
        tokens_view(r@) == expression_of(strings.deep_view().subrange(from as int, to as int)),
{
    let ghost dv = strings.deep_view();
    let mut out: Vec<Token> = Vec::new();
    let mut k: usize = from;
    proof {
        assert(tokens_view(out@) =~= expression_of(dv.subrange(from as int, from as int)));
    }
    while k < to
        invariant
            from <= k <= to <= strings@.len(),
            dv == strings.deep_view(),
            tokens_view(out@) == expression_of(dv.subrange(from as int, k as int)),
        decreases to - k,
    {
        let s = &strings[k];
        let t: Token = if frag_is(s, "+") {
            Token::Operator(Operator::Plus)
        } else if frag_is(s, "-") {
            Token::Operator(Operator::Minus)
        } else if frag_is(s, "*") {
            Token::Operator(Operator::Mul)
        } else if frag_is(s, "/") {
            Token::Operator(Operator::Div)
        } else if frag_is(s, "<<") {
            Token::Operator(Operator::BitShiftLeft)
        } else if frag_is(s, ">>") {
            Token::Operator(Operator::BitShiftRight)
        } else if frag_is(s, "==") {
            Token::Operator(Operator::Equals)
        } else if frag_is(s, "|>") {
            Token::Operator(Operator::Pipe)
        } else if frag_is(s, "|") {
            Token::Operator(Operator::BitOr)
        } else if frag_is(s, "&") {
            Token::Operator(Operator::BitAnd)
        } else if frag_is(s, "||") {
            Token::Operator(Operator::Or)
        } else if frag_is(s, "&&") {
            Token::Operator(Operator::And)
        } else {
            Token::ExpVal(s.clone())
        };
        proof {
            assert(token_view(t) == exp_token_of(dv[k as int]));
        }
        let ghost pre = out@;
        out.push(t);
        proof {
            assert(out@.drop_last() =~= pre);
            assert(tokens_view(out@) == tokens_view(pre).push(token_view(out@.last())));
            let sub1 = dv.subrange(from as int, k as int + 1);
            assert(sub1[k - from] == dv[k as int]);
            assert(tokens_view(out@) =~= expression_of(sub1));
        }
        k = k + 1;
    }
    out
}

} // verus!

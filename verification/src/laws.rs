//! What holds of compiled chunks: every successful compilation produces
//! code the machine can run safely (`code_ok`), the code ends in `RETURN`,
//! the line table records the token that produced each byte, a covering
//! constant pool is consumed exactly, and operator precedence orders both
//! the emitted instructions and, through the run relation, the machine's
//! evaluation.

use vstd::prelude::*;
use crate::compiler::{
    num_window, s_advance, s_binary, s_binary_op_byte, s_compile, s_compile_source, s_consume,
    s_count_numbers, s_emit_byte, s_emit_constant, s_expression, s_get_rule, s_grouping,
    s_infix_loop, s_literal, s_number, s_parse_precedence, s_unary, wf_parse, CState, InfixFn,
    Precedence, PrefixFn,
};
use crate::error::{CompileError, CompileErrorKind, RuntimeError};
use crate::scanner::{eof_token, lemma_scan_all_wf, Token, TokenType};
use crate::value::Value;
use crate::virtual_machine::{code_ok, lemma_sim_compose, lemma_sim_consts_mono, lemma_sim_extend, s_run_rel, s_stack_sim};

verus! {

/// The code a parse step appends is one net push: from any depth, running
/// the appended fragment ends one deeper, with every operand present and
/// every emitted constant index inside the final pool.
pub open spec fn frag_pushes_one(st: CState, out: CState) -> bool {
    &&& st.code.len() <= out.code.len()
    &&& out.code.take(st.code.len() as int) == st.code
    &&& st.consts.len() <= out.consts.len()
    &&& forall|d: int|
        0 <= d ==> s_stack_sim(
            out.code,
            out.consts.len() as int,
            st.code.len() as int,
            out.code.len() as int,
            d,
        ) == Some(d + 1)
}

/// The code an infix sequence appends keeps the depth: each operator
/// consumes the value before it and the one its right-hand side pushed.
pub open spec fn frag_keeps_depth(st: CState, out: CState) -> bool {
    &&& st.code.len() <= out.code.len()
    &&& out.code.take(st.code.len() as int) == st.code
    &&& st.consts.len() <= out.consts.len()
    &&& forall|d: int|
        1 <= d ==> s_stack_sim(
            out.code,
            out.consts.len() as int,
            st.code.len() as int,
            out.code.len() as int,
            d,
        ) == Some(d)
}

/// An unchanged chunk is an empty fragment: it keeps any depth.
proof fn lemma_frag_refl(st: CState, out: CState)
    requires
        out.code == st.code,
        out.consts == st.consts,
    ensures
        frag_keeps_depth(st, out),
{
    assert(out.code.take(st.code.len() as int) =~= st.code);
}

/// Chain two adjacent fragments: a net push followed by a depth keeper is a
/// net push.
proof fn lemma_frag_chain_push_keep(st: CState, mid: CState, out: CState)
    requires
        frag_pushes_one(st, mid),
        frag_keeps_depth(mid, out),
    ensures
        frag_pushes_one(st, out),
{
    assert(out.code.take(st.code.len() as int) =~= st.code) by {
        assert(forall|x: int|
            0 <= x < st.code.len() ==> out.code.take(mid.code.len() as int)[x] == out.code[x]);
        assert(forall|x: int| 0 <= x < st.code.len() ==> mid.code[x] == st.code[x]);
    }
    assert forall|d: int| 0 <= d implies s_stack_sim(
        out.code,
        out.consts.len() as int,
        st.code.len() as int,
        out.code.len() as int,
        d,
    ) == Some(d + 1) by {
        let n2 = out.consts.len() as int;
        let a = st.code.len() as int;
        let m = mid.code.len() as int;
        let z = out.code.len() as int;
        lemma_sim_extend(mid.code, out.code, mid.consts.len() as int, a, m, d);
        lemma_sim_consts_mono(out.code, mid.consts.len() as int, n2, a, m, d);
        assert(s_stack_sim(out.code, n2, a, m, d) == Some(d + 1));
        lemma_sim_compose(out.code, n2, a, m, z, d, d + 1);
    }
}

/// Chain two adjacent depth keepers.
proof fn lemma_frag_chain_keep_keep(st: CState, mid: CState, out: CState)
    requires
        frag_keeps_depth(st, mid),
        frag_keeps_depth(mid, out),
    ensures
        frag_keeps_depth(st, out),
{
    assert(out.code.take(st.code.len() as int) =~= st.code) by {
        assert(forall|x: int|
            0 <= x < st.code.len() ==> out.code.take(mid.code.len() as int)[x] == out.code[x]);
        assert(forall|x: int| 0 <= x < st.code.len() ==> mid.code[x] == st.code[x]);
    }
    assert forall|d: int| 1 <= d implies s_stack_sim(
        out.code,
        out.consts.len() as int,
        st.code.len() as int,
        out.code.len() as int,
        d,
    ) == Some(d) by {
        let n2 = out.consts.len() as int;
        let a = st.code.len() as int;
        let m = mid.code.len() as int;
        let z = out.code.len() as int;
        lemma_sim_extend(mid.code, out.code, mid.consts.len() as int, a, m, d);
        lemma_sim_consts_mono(out.code, mid.consts.len() as int, n2, a, m, d);
        assert(s_stack_sim(out.code, n2, a, m, d) == Some(d));
        lemma_sim_compose(out.code, n2, a, m, z, d, d);
    }
}

/// Appending one byte leaves the old code as a prefix.
proof fn lemma_push_prefix(c1: Seq<u8>, b: u8, a: int)
    requires
        0 <= a <= c1.len(),
    ensures
        c1.push(b).take(a) == c1.take(a),
        c1.push(b).take(c1.len() as int) == c1,
{
    assert(c1.push(b).take(a) =~= c1.take(a));
    assert(c1.push(b).take(c1.len() as int) =~= c1);
}

/// Stepping the cursor keeps a state well formed and moves it at most one
/// token forward.
pub proof fn lemma_advance_wf(st: CState)
    requires
        wf_parse(st),
        st.err is None,
    ensures
        ({
            let out = s_advance(st);
            &&& out.toks == st.toks
            &&& out.code == st.code
            &&& out.consts == st.consts
            &&& st.idx <= out.idx <= st.toks.len()
            &&& (out.err is None ==> wf_parse(out))
            &&& (out.err is None && out.prev.tpe != TokenType::Eof ==> out.idx == st.idx + 1)
        }),
{
    let out = s_advance(st);
    if st.idx < st.toks.len() {
    } else if st.lex_err is Some {
    } else {
        assert(out.cur == eof_token());
        if st.idx >= 1 {
            assert(st.toks.last() == eof_token());
        }
    }
}

/// A successful parse at any precedence appends one net push and keeps the
/// state well formed.
pub proof fn lemma_pp_frag(st: CState, p: Precedence)
    requires
        wf_parse(st),
    ensures
        ({
            let out = s_parse_precedence(st, p);
            &&& out.toks == st.toks
            &&& st.idx <= out.idx <= st.toks.len()
            &&& (st.err is None && out.err is None ==> frag_pushes_one(st, out) && wf_parse(out))
        }),
    decreases st.toks.len() - st.idx, 0int,
{
    let out = s_parse_precedence(st, p);
    if st.err is None {
        let st1 = s_advance(st);
        lemma_advance_wf(st);
        if st1.err is None {
            match s_get_rule(st1.prev.tpe).prefix {
                Option::None => {},
                Option::Some(pf) => {
                    // The prefix rule exists only for a real token, so the
                    // cursor stood on one and the guard below holds.
                    assert(st1.prev == st.cur);
                    assert(st1.prev.tpe != TokenType::Eof);
                    assert(st.idx >= 1);
                    if st.idx == st.toks.len() {
                        if st.lex_err is None {
                            assert(st.cur == st.toks.last());
                            assert(false);
                        } else {
                            assert(false);
                        }
                    }
                    assert(st1.idx == st.idx + 1);
                    assert(st.idx < st1.idx && st1.idx <= st.toks.len() && 0 <= st.idx);
                    let st2 = match pf {
                        PrefixFn::Grouping => s_grouping(st1),
                        PrefixFn::Unary => s_unary(st1),
                        PrefixFn::Number => s_number(st1),
                        PrefixFn::Literal => s_literal(st1),
                    };
                    match pf {
                        PrefixFn::Grouping => lemma_grouping_frag(st1),
                        PrefixFn::Unary => lemma_unary_frag(st1),
                        PrefixFn::Number => lemma_number_frag(st1),
                        PrefixFn::Literal => lemma_literal_frag(st1),
                    }
                    if st2.err is None {
                        assert(frag_pushes_one(st1, st2) && wf_parse(st2));
                        assert(st.idx < st2.idx && st2.idx <= st.toks.len() && st2.toks
                            == st.toks);
                        assert(out == s_infix_loop(st2, p));
                        lemma_il_frag(st2, p);
                        if out.err is None {
                            lemma_frag_chain_push_keep(st1, st2, out);
                            assert(st1.code == st.code && st1.consts == st.consts);
                            assert(frag_pushes_one(st, out));
                        }
                    } else {
                        if st.idx < st2.idx && st2.idx <= st.toks.len() && st2.toks == st.toks {
                            assert(s_infix_loop(st2, p) == st2);
                        }
                        assert(out.err is Some);
                    }
                },
            }
        }
    }
}

/// A successful infix sequence keeps the depth and the state well formed.
pub proof fn lemma_il_frag(st: CState, p: Precedence)
    requires
        wf_parse(st),
    ensures
        ({
            let out = s_infix_loop(st, p);
            &&& out.toks == st.toks
            &&& st.idx <= out.idx <= st.toks.len()
            &&& (st.err is None && out.err is None ==> frag_keeps_depth(st, out) && wf_parse(out))
        }),
    decreases st.toks.len() - st.idx, 1int,
{
    let out = s_infix_loop(st, p);
    if st.err is None {
        if !(0 <= st.idx && st.idx <= st.toks.len()) {
        } else if p.spec_value() <= s_get_rule(st.cur.tpe).precedence.spec_value() {
            let st1 = s_advance(st);
            lemma_advance_wf(st);
            if st1.err is None {
                if st.idx < st1.idx && st1.idx <= st.toks.len() {
                    let st2 = match s_get_rule(st1.prev.tpe).infix {
                        Option::Some(InfixFn::Binary) => s_binary(st1),
                        Option::None => st1,
                    };
                    match s_get_rule(st1.prev.tpe).infix {
                        Option::Some(InfixFn::Binary) => {
                            lemma_binary_frag(st1);
                        },
                        Option::None => {
                            lemma_frag_refl(st1, st1);
                        },
                    }
                    if st2.err is None {
                        assert(frag_keeps_depth(st1, st2) && wf_parse(st2));
                        if st.idx < st2.idx && st2.idx <= st.toks.len() && st2.toks == st.toks {
                            assert(out == s_infix_loop(st2, p));
                            lemma_il_frag(st2, p);
                            if out.err is None {
                                lemma_frag_chain_keep_keep(st1, st2, out);
                                assert(st1.code == st.code && st1.consts == st.consts);
                                assert(frag_keeps_depth(st, out));
                            }
                        } else {
                            assert(out == st2);
                            assert(st1.code == st.code && st1.consts == st.consts);
                            if out.err is None {
                                assert(frag_keeps_depth(st, out));
                            }
                        }
                    } else {
                        if st.idx < st2.idx && st2.idx <= st.toks.len() && st2.toks == st.toks {
                            assert(s_infix_loop(st2, p) == st2);
                        }
                        assert(out.err is Some);
                    }
                } else {
                    lemma_frag_refl(st, st1);
                }
            }
        } else {
            lemma_frag_refl(st, out);
        }
    }
}

/// A successful parenthesized group appends one net push.
pub proof fn lemma_grouping_frag(st: CState)
    requires
        wf_parse(st),
    ensures
        ({
            let out = s_grouping(st);
            &&& out.toks == st.toks
            &&& st.idx <= out.idx <= st.toks.len()
            &&& (st.err is None && out.err is None ==> frag_pushes_one(st, out) && wf_parse(out))
        }),
    decreases st.toks.len() - st.idx, 2int,
{
    let out = s_grouping(st);
    if st.err is None {
        let st1 = s_expression(st);
        lemma_expression_frag(st);
        if st1.err is None {
            assert(out == s_consume(st1, TokenType::RightParen));
            lemma_advance_wf(st1);
            assert(out.code == st1.code && out.consts == st1.consts);
        } else {
            assert(out == st1);
        }
    }
}

/// A successful unary negation appends one net push: its operand's code,
/// then `NEGATE`, which keeps the one value.
pub proof fn lemma_unary_frag(st: CState)
    requires
        wf_parse(st),
    ensures
        ({
            let out = s_unary(st);
            &&& out.toks == st.toks
            &&& st.idx <= out.idx <= st.toks.len()
            &&& (st.err is None && out.err is None ==> frag_pushes_one(st, out) && wf_parse(out))
        }),
    decreases st.toks.len() - st.idx, 2int,
{
    let out = s_unary(st);
    if st.err is None {
        let op = st.prev.tpe;
        let st1 = s_parse_precedence(st, Precedence::Unary);
        lemma_pp_frag(st, Precedence::Unary);
        if st1.err is None && op == TokenType::Minus {
            assert(out == s_emit_byte(st1, 2));
            assert(frag_pushes_one(st, st1));
            assert(out.code == st1.code.push(2));
            lemma_push_prefix(st1.code, 2, st.code.len() as int);
            assert(out.code.take(st.code.len() as int) == st.code);
            assert forall|d: int| 0 <= d implies s_stack_sim(
                out.code,
                out.consts.len() as int,
                st.code.len() as int,
                out.code.len() as int,
                d,
            ) == Some(d + 1) by {
                let n = out.consts.len() as int;
                let a = st.code.len() as int;
                let m = st1.code.len() as int;
                lemma_sim_extend(st1.code, out.code, n, a, m, d);
                assert(s_stack_sim(out.code, n, a, m, d) == Some(d + 1));
                assert(out.code[m] == 2);
                assert(s_stack_sim(out.code, n, m + 1, m + 1, d + 1) == Some(d + 1));
                assert(s_stack_sim(out.code, n, m, m + 1, d + 1) == Some(d + 1));
                lemma_sim_compose(out.code, n, a, m, m + 1, d, d + 1);
            }
        }
    }
}

/// A successful binary operator keeps the depth: the right-hand side's code
/// pushes one, and the operator byte turns the two top values into one.
pub proof fn lemma_binary_frag(st: CState)
    requires
        wf_parse(st),
        s_get_rule(st.prev.tpe).infix == Some(InfixFn::Binary),
    ensures
        ({
            let out = s_binary(st);
            &&& out.toks == st.toks
            &&& st.idx <= out.idx <= st.toks.len()
            &&& (st.err is None && out.err is None ==> frag_keeps_depth(st, out) && wf_parse(out))
        }),
    decreases st.toks.len() - st.idx, 2int,
{
    let out = s_binary(st);
    if st.err is None {
        let op = st.prev.tpe;
        let next_p = s_get_rule(op).precedence.spec_next();
        let st1 = s_parse_precedence(st, next_p);
        lemma_pp_frag(st, next_p);
        if st1.err is None {
            match s_binary_op_byte(op) {
                Option::Some(b) => {
                    assert(out == s_emit_byte(st1, b));
                    assert(frag_pushes_one(st, st1));
                    assert(out.code == st1.code.push(b));
                    assert(b == 3 || b == 4 || b == 5 || b == 6);
                    lemma_push_prefix(st1.code, b, st.code.len() as int);
                    assert(out.code.take(st.code.len() as int) == st.code);
                    assert forall|d: int| 1 <= d implies s_stack_sim(
                        out.code,
                        out.consts.len() as int,
                        st.code.len() as int,
                        out.code.len() as int,
                        d,
                    ) == Some(d) by {
                        let n = out.consts.len() as int;
                        let a = st.code.len() as int;
                        let m = st1.code.len() as int;
                        lemma_sim_extend(st1.code, out.code, n, a, m, d);
                        assert(s_stack_sim(out.code, n, a, m, d) == Some(d + 1));
                        assert(out.code[m] == b);
                        assert(s_stack_sim(out.code, n, m + 1, m + 1, d) == Some(d));
                        assert(s_stack_sim(out.code, n, m, m + 1, d + 1) == Some(d));
                        lemma_sim_compose(out.code, n, a, m, m + 1, d, d + 1);
                    }
                },
                Option::None => {
                    assert(false);
                },
            }
        }
    }
}

/// A successful number literal appends one net push: `CONSTANT idx` with
/// `idx` inside the grown pool.
pub proof fn lemma_number_frag(st: CState)
    ensures
        ({
            let out = s_number(st);
            &&& out.toks == st.toks
            &&& out.idx == st.idx
            &&& (st.err is None && out.err is None ==> frag_pushes_one(st, out) && (wf_parse(st)
                ==> wf_parse(out)))
        }),
{
    if st.err is None {
        if st.nidx < st.nums.len() {
            lemma_emit_constant_frag(
                CState { nidx: st.nidx + 1, ..st },
                Value::Number(st.nums[st.nidx]),
            );
        } else {
            lemma_emit_constant_frag(st, Value::Number(0));
        }
    }
}

/// Emitting a constant appends one net push.
pub proof fn lemma_emit_constant_frag(st: CState, v: Value)
    ensures
        ({
            let out = s_emit_constant(st, v);
            &&& out.toks == st.toks
            &&& out.idx == st.idx
            &&& (st.err is None && out.err is None ==> frag_pushes_one(st, out) && (wf_parse(st)
                ==> wf_parse(out)))
        }),
{
    let out = s_emit_constant(st, v);
    if st.err is None && out.err is None {
        let idx = st.consts.len() as u8;
        assert(out.code == st.code.push(1).push(idx));
        assert(out.consts == st.consts.push(v));
        assert(out.code.take(st.code.len() as int) =~= st.code);
        assert forall|d: int| 0 <= d implies s_stack_sim(
            out.code,
            out.consts.len() as int,
            st.code.len() as int,
            out.code.len() as int,
            d,
        ) == Some(d + 1) by {
            let n = out.consts.len() as int;
            let a = st.code.len() as int;
            assert(out.code.len() == a + 2);
            assert(out.code[a] == 1);
            assert(out.code[a + 1] == idx);
            assert((idx as int) < n);
            assert(s_stack_sim(out.code, n, a + 2, a + 2, d + 1) == Some(d + 1));
            assert(s_stack_sim(out.code, n, a, a + 2, d) == Some(d + 1));
        }
    }
}

/// A `true`, `false` or `nil` literal appends one net push.
pub proof fn lemma_literal_frag(st: CState)
    requires
        st.prev.tpe == TokenType::True || st.prev.tpe == TokenType::False || st.prev.tpe
            == TokenType::Nil,
    ensures
        ({
            let out = s_literal(st);
            &&& out.toks == st.toks
            &&& out.idx == st.idx
            &&& (st.err is None && out.err is None ==> frag_pushes_one(st, out) && (wf_parse(st)
                ==> wf_parse(out)))
        }),
{
    let out = s_literal(st);
    if st.err is None && out.err is None {
        assert(out.code.take(st.code.len() as int) =~= st.code);
        assert forall|d: int| 0 <= d implies s_stack_sim(
            out.code,
            out.consts.len() as int,
            st.code.len() as int,
            out.code.len() as int,
            d,
        ) == Some(d + 1) by {
            let n = out.consts.len() as int;
            let a = st.code.len() as int;
            assert(out.code.len() == a + 1);
            assert(out.code[a] == 7 || out.code[a] == 8 || out.code[a] == 9);
            assert(s_stack_sim(out.code, n, a + 1, a + 1, d + 1) == Some(d + 1));
        }
    }
}

/// A successful whole expression appends one net push.
pub proof fn lemma_expression_frag(st: CState)
    requires
        wf_parse(st),
    ensures
        ({
            let out = s_expression(st);
            &&& out.toks == st.toks
            &&& st.idx <= out.idx <= st.toks.len()
            &&& (st.err is None && out.err is None ==> frag_pushes_one(st, out) && wf_parse(out))
        }),
    decreases st.toks.len() - st.idx, 1int,
{
    lemma_pp_frag(st, Precedence::Assignment);
}

/// Every successful compilation yields code the machine can run safely
/// from an empty stack: decodable throughout, constants in the pool,
/// operands always present, and exactly one value left for the final
/// `RETURN`.
pub proof fn lemma_compile_source_code_ok(src: Seq<u8>, nums: Seq<u64>)
    ensures
        ({
            let out = s_compile_source(src, nums);
            out.err is None ==> code_ok(out.code, out.consts.len() as int)
        }),
{
    let st0 = crate::compiler::s_init(src, nums);
    let out = s_compile(st0);
    lemma_scan_all_wf(src, 0, 1);
    assert(wf_parse(st0));
    if out.err is None {
        let st1 = s_advance(st0);
        let st2 = s_expression(st1);
        let st3 = s_consume(st2, TokenType::Eof);
        assert(st1.err is None && st2.err is None && st3.err is None);
        lemma_advance_wf(st0);
        lemma_expression_frag(st1);
        assert(frag_pushes_one(st1, st2));
        assert(st1.code == Seq::<u8>::empty());
        assert(st3.code == st2.code && st3.consts == st2.consts);
        assert(out.code == st2.code.push(0));
        assert(out.consts == st2.consts);
        assert(out.code.len() >= 1 && out.code.last() == 0);
        let n = out.consts.len() as int;
        lemma_push_prefix(st2.code, 0, st2.code.len() as int);
        lemma_sim_extend(st2.code, out.code, n, 0, st2.code.len() as int, 0);
        assert(s_stack_sim(out.code, n, 0, out.code.len() - 1, 0) == Some(1int));
    }
}

/// After a successful compile of an expression, the last byte of the code
/// is `RETURN`.
pub proof fn lemma_compile_last_return(src: Seq<u8>, nums: Seq<u64>)
    ensures
        ({
            let out = s_compile_source(src, nums);
            out.err is None ==> out.code.len() >= 1 && out.code.last()
                == crate::op_code::OpCode::OpReturn.spec_byte()
        }),
{
}

/// Every emitted byte records the line of the token whose consumption
/// produced it: the compiler writes `prev.line`, the line of the token
/// just consumed, for the byte's offset. Together with `Chunk::get_line`,
/// which returns exactly the recorded line of an offset, a lookup at any
/// compiled offset yields the producing token's line.
pub proof fn lemma_emit_records_token_line(st: CState, b: u8)
    requires
        st.err is None,
    ensures
        s_emit_byte(st, b).lines == st.lines.push(st.prev.line),
        s_emit_byte(st, b).code == st.code.push(b),
{
}

/// The constant pool never grows past 256 entries: emitting a constant
/// fails, with `TooManyConstants` at the previous token's span, exactly
/// when the pool already holds 256.
pub proof fn lemma_constant_pool_limit(st: CState, v: Value)
    requires
        st.err is None,
    ensures
        ({
            let out = s_emit_constant(st, v);
            &&& (st.consts.len() >= 256 <==> out.err == Some(
                CompileError {
                    kind: CompileErrorKind::TooManyConstants,
                    start: st.prev.start,
                    length: st.prev.length,
                },
            ))
            &&& (st.consts.len() < 256 ==> out.err is None && out.consts == st.consts.push(v)
                && out.consts.len() <= 256)
        }),
{
}

/// The compilation state for a bare token stream: the compiler is about to
/// read `toks`, with `nums` the bits of its number literals in order.
pub open spec fn token_start_state(toks: Seq<Token>, nums: Seq<u64>) -> CState {
    CState {
        toks,
        lex_err: None,
        nums,
        idx: 0,
        prev: eof_token(),
        cur: eof_token(),
        nidx: 0,
        code: Seq::empty(),
        consts: Seq::empty(),
        lines: Seq::empty(),
        err: None,
    }
}

/// Operator precedence, the grouping half: compiling the token shape
/// `a op1 b op2 c` with `op1` of lower precedence than `op2` emits the
/// three constants, then `op2`'s instruction, then `op1`'s — the machine
/// computes `b op2 c` first and combines `a` with that result.
#[verifier::rlimit(60)]
pub proof fn lemma_precedence_tighter_right(
    t0: Token,
    t1: Token,
    t2: Token,
    t3: Token,
    t4: Token,
    n0: u64,
    n1: u64,
    n2: u64,
)
    requires
        t0.tpe == TokenType::Number,
        t2.tpe == TokenType::Number,
        t4.tpe == TokenType::Number,
        s_binary_op_byte(t1.tpe) is Some,
        s_binary_op_byte(t3.tpe) is Some,
        s_get_rule(t1.tpe).precedence.spec_value() < s_get_rule(t3.tpe).precedence.spec_value(),
    ensures
        ({
            let st = token_start_state(seq![t0, t1, t2, t3, t4, eof_token()], seq![n0, n1, n2]);
            let out = s_compile(st);
            &&& out.err is None
            &&& out.code == seq![
                1u8,
                0u8,
                1u8,
                1u8,
                1u8,
                2u8,
                s_binary_op_byte(t3.tpe)->0,
                s_binary_op_byte(t1.tpe)->0,
                0u8,
            ]
            &&& out.consts == seq![Value::Number(n0), Value::Number(n1), Value::Number(n2)]
        }),
{
    let toks = seq![t0, t1, t2, t3, t4, eof_token()];
    let st = token_start_state(toks, seq![n0, n1, n2]);
    let op1 = s_binary_op_byte(t1.tpe)->0;
    let op3 = s_binary_op_byte(t3.tpe)->0;
    assert(t1.tpe == TokenType::Plus || t1.tpe == TokenType::Minus);
    assert(t3.tpe == TokenType::Star || t3.tpe == TokenType::Slash);
    let a1 = s_advance(st);
    assert(a1.cur == t0 && a1.idx == 1);
    // expression: prefix `number` on t0
    let b1 = s_advance(a1);
    assert(b1.prev == t0 && b1.cur == t1 && b1.idx == 2);
    let c1 = s_number(b1);
    assert(c1.code =~= seq![1u8, 0u8]);
    assert(c1.consts =~= seq![Value::Number(n0)]);
    assert(c1.idx == 2 && c1.cur == t1 && c1.err is None);
    assert(s_parse_precedence(a1, Precedence::Assignment) == s_infix_loop(
        c1,
        Precedence::Assignment,
    ));
    // infix loop takes t1
    let d1 = s_advance(c1);
    assert(d1.prev == t1 && d1.cur == t2 && d1.idx == 3);
    // binary(t1): right-hand side at one level above t1's
    let p_rhs = s_get_rule(t1.tpe).precedence.spec_next();
    let e1 = s_advance(d1);
    assert(e1.prev == t2 && e1.cur == t3 && e1.idx == 4);
    let f1 = s_number(e1);
    assert(f1.code =~= seq![1u8, 0u8, 1u8, 1u8]);
    assert(f1.consts =~= seq![Value::Number(n0), Value::Number(n1)]);
    assert(s_parse_precedence(d1, p_rhs) == s_infix_loop(f1, p_rhs));
    // the rhs's own infix loop takes t3, which binds tighter
    assert(p_rhs.spec_value() <= s_get_rule(t3.tpe).precedence.spec_value());
    let g1 = s_advance(f1);
    assert(g1.prev == t3 && g1.cur == t4 && g1.idx == 5);
    let p_rhs2 = s_get_rule(t3.tpe).precedence.spec_next();
    let h1 = s_advance(g1);
    assert(h1.prev == t4 && h1.cur == eof_token() && h1.idx == 6);
    let i1 = s_number(h1);
    assert(i1.code =~= seq![1u8, 0u8, 1u8, 1u8, 1u8, 2u8]);
    assert(i1.consts =~= seq![Value::Number(n0), Value::Number(n1), Value::Number(n2)]);
    assert(s_parse_precedence(g1, p_rhs2) == s_infix_loop(i1, p_rhs2));
    assert(s_get_rule(i1.cur.tpe).precedence.spec_value() == 0);
    assert(s_infix_loop(i1, p_rhs2) == i1);
    let j1 = s_emit_byte(i1, op3);
    assert(s_binary(g1) == j1);
    assert(j1.code =~= seq![1u8, 0u8, 1u8, 1u8, 1u8, 2u8, op3]);
    assert(s_infix_loop(j1, p_rhs) == j1);
    assert(s_infix_loop(f1, p_rhs) == j1);
    assert(s_parse_precedence(d1, p_rhs) == j1);
    let k1 = s_emit_byte(j1, op1);
    assert(s_binary(d1) == k1);
    assert(k1.code =~= seq![1u8, 0u8, 1u8, 1u8, 1u8, 2u8, op3, op1]);
    assert(s_infix_loop(k1, Precedence::Assignment) == k1);
    assert(s_infix_loop(c1, Precedence::Assignment) == k1);
    assert(s_expression(a1) == k1);
    assert(k1.cur == eof_token());
    let l1 = s_advance(k1);
    assert(s_consume(k1, TokenType::Eof) == l1);
    let m1 = s_emit_byte(l1, 0);
    assert(s_compile(st) == m1);
    assert(m1.code =~= seq![1u8, 0u8, 1u8, 1u8, 1u8, 2u8, op3, op1, 0u8]);
    assert(m1.consts =~= seq![Value::Number(n0), Value::Number(n1), Value::Number(n2)]);
}

/// Operator precedence, the associativity half: with `op1` and `op2` of
/// equal precedence, `a op1 b op2 c` associates left — `op1`'s instruction
/// is emitted before `c` is even loaded.
#[verifier::rlimit(60)]
pub proof fn lemma_precedence_left_assoc(
    t0: Token,
    t1: Token,
    t2: Token,
    t3: Token,
    t4: Token,
    n0: u64,
    n1: u64,
    n2: u64,
)
    requires
        t0.tpe == TokenType::Number,
        t2.tpe == TokenType::Number,
        t4.tpe == TokenType::Number,
        s_binary_op_byte(t1.tpe) is Some,
        s_binary_op_byte(t3.tpe) is Some,
        s_get_rule(t1.tpe).precedence == s_get_rule(t3.tpe).precedence,
    ensures
        ({
            let st = token_start_state(seq![t0, t1, t2, t3, t4, eof_token()], seq![n0, n1, n2]);
            let out = s_compile(st);
            &&& out.err is None
            &&& out.code == seq![
                1u8,
                0u8,
                1u8,
                1u8,
                s_binary_op_byte(t1.tpe)->0,
                1u8,
                2u8,
                s_binary_op_byte(t3.tpe)->0,
                0u8,
            ]
            &&& out.consts == seq![Value::Number(n0), Value::Number(n1), Value::Number(n2)]
        }),
{
    let toks = seq![t0, t1, t2, t3, t4, eof_token()];
    let st = token_start_state(toks, seq![n0, n1, n2]);
    let op1 = s_binary_op_byte(t1.tpe)->0;
    let op3 = s_binary_op_byte(t3.tpe)->0;
    let a1 = s_advance(st);
    assert(a1.cur == t0 && a1.idx == 1);
    let b1 = s_advance(a1);
    assert(b1.prev == t0 && b1.cur == t1 && b1.idx == 2);
    let c1 = s_number(b1);
    assert(c1.code =~= seq![1u8, 0u8]);
    assert(c1.consts =~= seq![Value::Number(n0)]);
    assert(s_parse_precedence(a1, Precedence::Assignment) == s_infix_loop(
        c1,
        Precedence::Assignment,
    ));
    // infix loop takes t1
    let d1 = s_advance(c1);
    assert(d1.prev == t1 && d1.cur == t2 && d1.idx == 3);
    let p_rhs = s_get_rule(t1.tpe).precedence.spec_next();
    let e1 = s_advance(d1);
    assert(e1.prev == t2 && e1.cur == t3 && e1.idx == 4);
    let f1 = s_number(e1);
    assert(f1.code =~= seq![1u8, 0u8, 1u8, 1u8]);
    assert(f1.consts =~= seq![Value::Number(n0), Value::Number(n1)]);
    assert(s_parse_precedence(d1, p_rhs) == s_infix_loop(f1, p_rhs));
    // the rhs stops before t3: equal precedence does not reach one higher
    assert(s_get_rule(t1.tpe).precedence.spec_value() < p_rhs.spec_value());
    assert(!(p_rhs.spec_value() <= s_get_rule(t3.tpe).precedence.spec_value()));
    assert(s_infix_loop(f1, p_rhs) == f1);
    let j1 = s_emit_byte(f1, op1);
    assert(s_binary(d1) == j1);
    assert(j1.code =~= seq![1u8, 0u8, 1u8, 1u8, op1]);
    // the outer loop takes t3
    assert(s_get_rule(j1.cur.tpe).precedence.spec_value() >= 1);
    let g1 = s_advance(j1);
    assert(g1.prev == t3 && g1.cur == t4 && g1.idx == 5);
    let p_rhs2 = s_get_rule(t3.tpe).precedence.spec_next();
    let h1 = s_advance(g1);
    assert(h1.prev == t4 && h1.cur == eof_token() && h1.idx == 6);
    let i1 = s_number(h1);
    assert(i1.code =~= seq![1u8, 0u8, 1u8, 1u8, op1, 1u8, 2u8]);
    assert(i1.consts =~= seq![Value::Number(n0), Value::Number(n1), Value::Number(n2)]);
    assert(s_parse_precedence(g1, p_rhs2) == s_infix_loop(i1, p_rhs2));
    assert(s_infix_loop(i1, p_rhs2) == i1);
    let k1 = s_emit_byte(i1, op3);
    assert(s_binary(g1) == k1);
    assert(k1.code =~= seq![1u8, 0u8, 1u8, 1u8, op1, 1u8, 2u8, op3]);
    assert(s_infix_loop(k1, Precedence::Assignment) == k1);
    assert(s_infix_loop(j1, Precedence::Assignment) == k1);
    assert(s_infix_loop(c1, Precedence::Assignment) == k1);
    assert(s_expression(a1) == k1);
    let l1 = s_advance(k1);
    assert(s_consume(k1, TokenType::Eof) == l1);
    let m1 = s_emit_byte(l1, 0);
    assert(s_compile(st) == m1);
    assert(m1.code =~= seq![1u8, 0u8, 1u8, 1u8, op1, 1u8, 2u8, op3, 0u8]);
    assert(m1.consts =~= seq![Value::Number(n0), Value::Number(n1), Value::Number(n2)]);
}

/// Operator precedence, the evaluation half for the grouping shape:
/// running the code that `lemma_precedence_tighter_right` pins, every
/// outcome the machine may produce is `Ok` of a number obtained by first
/// applying the supplied arithmetic to the middle and right constants
/// (`b op2 c`), then to the left constant and that result (`a op1 _`).
pub proof fn lemma_precedence_value_tighter_right<F: Fn(u8, u64, u64) -> u64>(
    arith: F,
    b1: u8,
    b3: u8,
    n0: u64,
    n1: u64,
    n2: u64,
    lines: Seq<usize>,
    out: Result<Value, RuntimeError>,
)
    requires
        b1 == 3 || b1 == 4 || b1 == 5 || b1 == 6,
        b3 == 3 || b3 == 4 || b3 == 5 || b3 == 6,
        s_run_rel(
            arith,
            seq![1u8, 0u8, 1u8, 1u8, 1u8, 2u8, b3, b1, 0u8],
            seq![Value::Number(n0), Value::Number(n1), Value::Number(n2)],
            lines,
            0,
            Seq::empty(),
            out,
        ),
    ensures
        exists|r2: u64, r: u64|
            call_ensures(arith, (b3, n1, n2), r2) && call_ensures(arith, (b1, n0, r2), r) && out
                == Ok::<Value, RuntimeError>(Value::Number(r)),
{
    let code = seq![1u8, 0u8, 1u8, 1u8, 1u8, 2u8, b3, b1, 0u8];
    let consts = seq![Value::Number(n0), Value::Number(n1), Value::Number(n2)];
    let s0 = Seq::<Value>::empty();
    let s1 = s0.push(Value::Number(n0));
    let s2 = s1.push(Value::Number(n1));
    let s3 = s2.push(Value::Number(n2));
    assert(s_run_rel(arith, code, consts, lines, 2, s1, out));
    assert(s_run_rel(arith, code, consts, lines, 4, s2, out));
    assert(s_run_rel(arith, code, consts, lines, 6, s3, out));
    assert(s3[s3.len() - 2] == Value::Number(n1) && s3.last() == Value::Number(n2));
    assert(exists|rv: u64|
        call_ensures(arith, (b3, n1, n2), rv) && s_run_rel(
            arith,
            code,
            consts,
            lines,
            7,
            s3.drop_last().drop_last().push(Value::Number(rv)),
            out,
        ));
    let r2 = choose|rv: u64|
        call_ensures(arith, (b3, n1, n2), rv) && s_run_rel(
            arith,
            code,
            consts,
            lines,
            7,
            s3.drop_last().drop_last().push(Value::Number(rv)),
            out,
        );
    let s4 = s3.drop_last().drop_last().push(Value::Number(r2));
    assert(s4 =~= s1.push(Value::Number(r2)));
    assert(s4[s4.len() - 2] == Value::Number(n0) && s4.last() == Value::Number(r2));
    assert(exists|rv: u64|
        call_ensures(arith, (b1, n0, r2), rv) && s_run_rel(
            arith,
            code,
            consts,
            lines,
            8,
            s4.drop_last().drop_last().push(Value::Number(rv)),
            out,
        ));
    let r = choose|rv: u64|
        call_ensures(arith, (b1, n0, r2), rv) && s_run_rel(
            arith,
            code,
            consts,
            lines,
            8,
            s4.drop_last().drop_last().push(Value::Number(rv)),
            out,
        );
    let s5 = s4.drop_last().drop_last().push(Value::Number(r));
    assert(s5.last() == Value::Number(r));
    assert(out == Ok::<Value, RuntimeError>(Value::Number(r)));
    assert(call_ensures(arith, (b3, n1, n2), r2) && call_ensures(arith, (b1, n0, r2), r) && out
        == Ok::<Value, RuntimeError>(Value::Number(r)));
}

/// Operator precedence, the evaluation half for the left-associative
/// shape: running the code that `lemma_precedence_left_assoc` pins, every
/// outcome is `Ok` of a number obtained by first applying the arithmetic
/// to the left and middle constants (`a op1 b`), then to that result and
/// the right constant (`_ op2 c`).
pub proof fn lemma_precedence_value_left_assoc<F: Fn(u8, u64, u64) -> u64>(
    arith: F,
    b1: u8,
    b3: u8,
    n0: u64,
    n1: u64,
    n2: u64,
    lines: Seq<usize>,
    out: Result<Value, RuntimeError>,
)
    requires
        b1 == 3 || b1 == 4 || b1 == 5 || b1 == 6,
        b3 == 3 || b3 == 4 || b3 == 5 || b3 == 6,
        s_run_rel(
            arith,
            seq![1u8, 0u8, 1u8, 1u8, b1, 1u8, 2u8, b3, 0u8],
            seq![Value::Number(n0), Value::Number(n1), Value::Number(n2)],
            lines,
            0,
            Seq::empty(),
            out,
        ),
    ensures
        exists|r1: u64, r: u64|
            call_ensures(arith, (b1, n0, n1), r1) && call_ensures(arith, (b3, r1, n2), r) && out
                == Ok::<Value, RuntimeError>(Value::Number(r)),
{
    let code = seq![1u8, 0u8, 1u8, 1u8, b1, 1u8, 2u8, b3, 0u8];
    let consts = seq![Value::Number(n0), Value::Number(n1), Value::Number(n2)];
    let s0 = Seq::<Value>::empty();
    let s1 = s0.push(Value::Number(n0));
    let s2 = s1.push(Value::Number(n1));
    assert(s_run_rel(arith, code, consts, lines, 2, s1, out));
    assert(s_run_rel(arith, code, consts, lines, 4, s2, out));
    assert(s2[s2.len() - 2] == Value::Number(n0) && s2.last() == Value::Number(n1));
    assert(exists|rv: u64|
        call_ensures(arith, (b1, n0, n1), rv) && s_run_rel(
            arith,
            code,
            consts,
            lines,
            5,
            s2.drop_last().drop_last().push(Value::Number(rv)),
            out,
        ));
    let r1 = choose|rv: u64|
        call_ensures(arith, (b1, n0, n1), rv) && s_run_rel(
            arith,
            code,
            consts,
            lines,
            5,
            s2.drop_last().drop_last().push(Value::Number(rv)),
            out,
        );
    let s3 = s2.drop_last().drop_last().push(Value::Number(r1));
    assert(s3 =~= s0.push(Value::Number(r1)));
    let s4 = s3.push(Value::Number(n2));
    assert(s_run_rel(arith, code, consts, lines, 7, s4, out));
    assert(s4[s4.len() - 2] == Value::Number(r1) && s4.last() == Value::Number(n2));
    assert(exists|rv: u64|
        call_ensures(arith, (b3, r1, n2), rv) && s_run_rel(
            arith,
            code,
            consts,
            lines,
            8,
            s4.drop_last().drop_last().push(Value::Number(rv)),
            out,
        ));
    let r = choose|rv: u64|
        call_ensures(arith, (b3, r1, n2), rv) && s_run_rel(
            arith,
            code,
            consts,
            lines,
            8,
            s4.drop_last().drop_last().push(Value::Number(rv)),
            out,
        );
    let s5 = s4.drop_last().drop_last().push(Value::Number(r));
    assert(s5.last() == Value::Number(r));
    assert(out == Ok::<Value, RuntimeError>(Value::Number(r)));
    assert(call_ensures(arith, (b1, n0, n1), r1) && call_ensures(arith, (b3, r1, n2), r) && out
        == Ok::<Value, RuntimeError>(Value::Number(r)));
}

/// Counting number tokens splits at any midpoint.
pub proof fn lemma_count_numbers_split(toks: Seq<Token>, a: int, b: int, c: int)
    requires
        0 <= a <= b <= c <= toks.len(),
    ensures
        s_count_numbers(toks, a, c) == s_count_numbers(toks, a, b) + s_count_numbers(toks, b, c),
    decreases b - a,
{
    if a < b {
        lemma_count_numbers_split(toks, a + 1, b, c);
    }
}

/// The count over a range is never negative.
pub proof fn lemma_count_numbers_nonneg(toks: Seq<Token>, a: int, b: int)
    ensures
        s_count_numbers(toks, a, b) >= 0,
    decreases b - a,
{
    if !(a < 0 || a >= b || b > toks.len()) {
        lemma_count_numbers_nonneg(toks, a + 1, b);
    }
}

/// The premise of the constants law at a parse state: the cursor has been
/// primed, the constants consumed so far do not outrun the number tokens
/// already passed, and the pool covers the whole stream.
pub open spec fn nums_inv(st: CState) -> bool {
    &&& st.idx >= 1
    &&& 0 <= st.nidx
    &&& st.nidx <= s_count_numbers(st.toks, 0, st.idx - 1)
    &&& st.nums.len() >= s_count_numbers(st.toks, 0, st.toks.len() as int)
}

/// What a parse step adds to the pool: exactly the next pre-parsed
/// constants, in order — never the placeholder.
pub open spec fn consts_from_nums(st: CState, out: CState) -> bool {
    &&& st.nidx <= out.nidx <= st.nums.len()
    &&& out.consts == st.consts + num_window(st.nums, st.nidx, out.nidx)
}

/// Adjacent constant windows concatenate.
proof fn lemma_window_concat(nums: Seq<u64>, a: int, b: int, c: int)
    requires
        a <= b <= c,
    ensures
        num_window(nums, a, b) + num_window(nums, b, c) == num_window(nums, a, c),
{
    assert(num_window(nums, a, b) + num_window(nums, b, c) =~= num_window(nums, a, c));
}

/// Chain the constants of two adjacent parse steps.
proof fn lemma_consts_chain(st: CState, mid: CState, out: CState)
    requires
        consts_from_nums(st, mid),
        consts_from_nums(mid, out),
        mid.nums == st.nums,
    ensures
        consts_from_nums(st, out),
{
    lemma_window_concat(st.nums, st.nidx, mid.nidx, out.nidx);
    assert(out.consts =~= st.consts + num_window(st.nums, st.nidx, out.nidx));
}

/// A step that leaves pool and cursor alone adds the empty window.
proof fn lemma_consts_refl(st: CState, out: CState)
    requires
        out.consts == st.consts,
        out.nidx == st.nidx,
        nums_inv(st),
        st.idx - 1 <= st.toks.len(),
    ensures
        consts_from_nums(st, out),
{
    lemma_count_numbers_split(st.toks, 0, st.idx - 1, st.toks.len() as int);
    lemma_count_numbers_nonneg(st.toks, st.idx - 1, st.toks.len() as int);
    lemma_count_numbers_nonneg(st.toks, 0, st.idx - 1);
    assert(out.consts =~= st.consts + num_window(st.nums, st.nidx, st.nidx));
}

/// Stepping the cursor keeps the constants-law premise: the counted window
/// only grows.
proof fn lemma_advance_nums_inv(st: CState)
    requires
        wf_parse(st),
        nums_inv(st),
        st.err is None,
        s_advance(st).err is None,
    ensures
        nums_inv(s_advance(st)),
{
    let out = s_advance(st);
    assert(st.idx <= out.idx <= st.toks.len() + 1);
    if out.idx > st.idx {
        lemma_count_numbers_split(st.toks, 0, st.idx - 1, out.idx - 1);
        lemma_count_numbers_nonneg(st.toks, st.idx - 1, out.idx - 1);
    }
}

/// The `number` handler with an entry left in the pool: it consumes
/// exactly that entry.
proof fn lemma_number_nums(st: CState)
    requires
        st.err is None,
        0 <= st.nidx < st.nums.len(),
    ensures
        ({
            let out = s_number(st);
            out.err is None ==> out.nidx == st.nidx + 1 && consts_from_nums(st, out)
        }),
{
    let out = s_number(st);
    if out.err is None {
        assert(out.consts == st.consts.push(Value::Number(st.nums[st.nidx])));
        assert(num_window(st.nums, st.nidx, st.nidx + 1) =~= seq![
            Value::Number(st.nums[st.nidx]),
        ]);
        assert(out.consts =~= st.consts + num_window(st.nums, st.nidx, st.nidx + 1));
    }
}

/// A successful parse with a covering pool consumes pre-parsed constants
/// only: what it adds to the pool is exactly the next window of `nums`.
pub proof fn lemma_pp_nums(st: CState, p: Precedence)
    requires
        wf_parse(st),
        nums_inv(st),
    ensures
        ({
            let out = s_parse_precedence(st, p);
            st.err is None && out.err is None ==> nums_inv(out) && consts_from_nums(st, out)
                && out.nums == st.nums && out.toks == st.toks
        }),
    decreases st.toks.len() - st.idx, 0int,
{
    let out = s_parse_precedence(st, p);
    if st.err is None && out.err is None {
        let st1 = s_advance(st);
        lemma_advance_wf(st);
        lemma_advance_nums_inv(st);
        assert(st1.err is None);
        match s_get_rule(st1.prev.tpe).prefix {
            Option::None => {},
            Option::Some(pf) => {
                assert(st1.prev == st.cur);
                assert(st1.prev.tpe != TokenType::Eof);
                if st.idx == st.toks.len() {
                    if st.lex_err is None {
                        assert(st.cur == st.toks.last());
                        assert(false);
                    } else {
                        assert(false);
                    }
                }
                assert(st1.idx == st.idx + 1);
                let st2 = match pf {
                    PrefixFn::Grouping => s_grouping(st1),
                    PrefixFn::Unary => s_unary(st1),
                    PrefixFn::Number => s_number(st1),
                    PrefixFn::Literal => s_literal(st1),
                };
                match pf {
                    PrefixFn::Grouping => {
                        lemma_grouping_frag(st1);
                        lemma_grouping_nums(st1);
                    },
                    PrefixFn::Unary => {
                        lemma_unary_frag(st1);
                        lemma_unary_nums(st1);
                    },
                    PrefixFn::Number => {
                        lemma_number_frag(st1);
                        // the token just consumed is a number literal, so
                        // the pool still holds an entry for it
                        assert(st.toks[st.idx - 1].tpe == TokenType::Number);
                        lemma_count_numbers_split(st.toks, 0, st.idx - 1, st.idx);
                        lemma_count_numbers_split(st.toks, 0, st.idx, st.toks.len() as int);
                        lemma_count_numbers_nonneg(st.toks, st.idx, st.toks.len() as int);
                        assert(s_count_numbers(st.toks, st.idx, st.idx) == 0);
                        assert(s_count_numbers(st.toks, st.idx - 1, st.idx) == 1);
                        assert(st1.nidx < st1.nums.len());
                        lemma_number_nums(st1);
                        if st2.err is None {
                            lemma_count_numbers_nonneg(st.toks, 0, st.idx - 1);
                            assert(nums_inv(st2));
                        }
                    },
                    PrefixFn::Literal => {
                        lemma_literal_frag(st1);
                        if st2.err is None {
                            lemma_consts_refl(st1, st2);
                            assert(nums_inv(st2));
                        }
                    },
                }
                if st2.err is None {
                    assert(nums_inv(st2) && consts_from_nums(st1, st2));
                    assert(st.idx < st2.idx && st2.idx <= st.toks.len() && st2.toks == st.toks);
                    assert(out == s_infix_loop(st2, p));
                    lemma_il_nums(st2, p);
                    assert(consts_from_nums(st, st1)) by {
                        lemma_consts_refl(st, st1);
                    }
                    lemma_consts_chain(st, st1, st2);
                    lemma_consts_chain(st, st2, out);
                } else {
                    assert(out.err is Some);
                }
            },
        }
    }
}

/// A successful infix sequence with a covering pool consumes pre-parsed
/// constants only.
pub proof fn lemma_il_nums(st: CState, p: Precedence)
    requires
        wf_parse(st),
        nums_inv(st),
    ensures
        ({
            let out = s_infix_loop(st, p);
            st.err is None && out.err is None ==> nums_inv(out) && consts_from_nums(st, out)
                && out.nums == st.nums && out.toks == st.toks
        }),
    decreases st.toks.len() - st.idx, 1int,
{
    let out = s_infix_loop(st, p);
    if st.err is None && out.err is None {
        if !(0 <= st.idx && st.idx <= st.toks.len()) {
            lemma_consts_refl(st, out);
        } else if p.spec_value() <= s_get_rule(st.cur.tpe).precedence.spec_value() {
            let st1 = s_advance(st);
            lemma_advance_wf(st);
            lemma_advance_nums_inv(st);
            if st1.err is None {
                if st.idx < st1.idx && st1.idx <= st.toks.len() {
                    let st2 = match s_get_rule(st1.prev.tpe).infix {
                        Option::Some(InfixFn::Binary) => s_binary(st1),
                        Option::None => st1,
                    };
                    match s_get_rule(st1.prev.tpe).infix {
                        Option::Some(InfixFn::Binary) => {
                            lemma_binary_frag(st1);
                            lemma_binary_nums(st1);
                        },
                        Option::None => {
                            lemma_frag_refl(st1, st1);
                            if st2.err is None {
                                lemma_consts_refl(st1, st2);
                            }
                        },
                    }
                    if st2.err is None {
                        assert(nums_inv(st2) && consts_from_nums(st1, st2));
                        assert(consts_from_nums(st, st1)) by {
                            lemma_consts_refl(st, st1);
                        }
                        lemma_consts_chain(st, st1, st2);
                        if st.idx < st2.idx && st2.idx <= st.toks.len() && st2.toks == st.toks {
                            assert(out == s_infix_loop(st2, p));
                            lemma_il_nums(st2, p);
                            lemma_consts_chain(st, st2, out);
                        } else {
                            assert(out == st2);
                        }
                    } else {
                        assert(out.err is Some);
                    }
                } else {
                    lemma_consts_refl(st, st1);
                }
            }
        } else {
            lemma_consts_refl(st, out);
        }
    }
}

/// A successful parenthesized group with a covering pool consumes
/// pre-parsed constants only.
pub proof fn lemma_grouping_nums(st: CState)
    requires
        wf_parse(st),
        nums_inv(st),
    ensures
        ({
            let out = s_grouping(st);
            st.err is None && out.err is None ==> nums_inv(out) && consts_from_nums(st, out)
                && out.nums == st.nums && out.toks == st.toks
        }),
    decreases st.toks.len() - st.idx, 2int,
{
    let out = s_grouping(st);
    if st.err is None && out.err is None {
        let st1 = s_expression(st);
        lemma_expression_frag(st);
        lemma_expression_nums(st);
        assert(st1.err is None);
        assert(out == s_consume(st1, TokenType::RightParen));
        lemma_advance_wf(st1);
        lemma_advance_nums_inv(st1);
        assert(out.consts == st1.consts && out.nidx == st1.nidx);
        lemma_consts_refl(st1, out);
        lemma_consts_chain(st, st1, out);
    }
}

/// A successful unary negation with a covering pool consumes pre-parsed
/// constants only.
pub proof fn lemma_unary_nums(st: CState)
    requires
        wf_parse(st),
        nums_inv(st),
    ensures
        ({
            let out = s_unary(st);
            st.err is None && out.err is None ==> nums_inv(out) && consts_from_nums(st, out)
                && out.nums == st.nums && out.toks == st.toks
        }),
    decreases st.toks.len() - st.idx, 2int,
{
    let out = s_unary(st);
    if st.err is None && out.err is None {
        let st1 = s_parse_precedence(st, Precedence::Unary);
        lemma_pp_nums(st, Precedence::Unary);
        lemma_pp_frag(st, Precedence::Unary);
        assert(st1.err is None);
        assert(out.consts == st1.consts && out.nidx == st1.nidx);
        lemma_consts_refl(st1, out);
        lemma_consts_chain(st, st1, out);
    }
}

/// A successful binary operator with a covering pool consumes pre-parsed
/// constants only.
pub proof fn lemma_binary_nums(st: CState)
    requires
        wf_parse(st),
        nums_inv(st),
        s_get_rule(st.prev.tpe).infix == Some(InfixFn::Binary),
    ensures
        ({
            let out = s_binary(st);
            st.err is None && out.err is None ==> nums_inv(out) && consts_from_nums(st, out)
                && out.nums == st.nums && out.toks == st.toks
        }),
    decreases st.toks.len() - st.idx, 2int,
{
    let out = s_binary(st);
    if st.err is None && out.err is None {
        let next_p = s_get_rule(st.prev.tpe).precedence.spec_next();
        let st1 = s_parse_precedence(st, next_p);
        lemma_pp_nums(st, next_p);
        lemma_pp_frag(st, next_p);
        assert(st1.err is None);
        assert(out.consts == st1.consts && out.nidx == st1.nidx);
        lemma_consts_refl(st1, out);
        lemma_consts_chain(st, st1, out);
    }
}

/// A successful whole expression with a covering pool consumes pre-parsed
/// constants only.
pub proof fn lemma_expression_nums(st: CState)
    requires
        wf_parse(st),
        nums_inv(st),
    ensures
        ({
            let out = s_expression(st);
            st.err is None && out.err is None ==> nums_inv(out) && consts_from_nums(st, out)
                && out.nums == st.nums && out.toks == st.toks
        }),
    decreases st.toks.len() - st.idx, 1int,
{
    lemma_pp_nums(st, Precedence::Assignment);
}

/// With a pool that covers the source's number literals, a successful
/// compilation's constant pool is exactly those literals' bits, in order:
/// the `number` handler never reaches its placeholder.
pub proof fn lemma_compile_constants_from_numbers(src: Seq<u8>, nums: Seq<u64>)
    requires
        crate::compiler::numbers_cover(src, nums),
    ensures
        ({
            let out = s_compile_source(src, nums);
            out.err is None ==> 0 <= out.nidx <= nums.len() && out.consts == num_window(
                nums,
                0,
                out.nidx,
            )
        }),
{
    let st0 = crate::compiler::s_init(src, nums);
    let out = s_compile(st0);
    lemma_scan_all_wf(src, 0, 1);
    assert(wf_parse(st0));
    if out.err is None {
        let st1 = s_advance(st0);
        let st2 = s_expression(st1);
        let st3 = s_consume(st2, TokenType::Eof);
        assert(st1.err is None && st2.err is None && st3.err is None);
        lemma_advance_wf(st0);
        assert(st1.idx == 1 || st1.idx == 0);
        if st0.toks.len() == 0 {
            assert(st0.lex_err is Some);
            assert(false);
        }
        assert(st1.idx == 1);
        assert(s_count_numbers(st1.toks, 0, 0) == 0);
        assert(nums_inv(st1));
        lemma_expression_nums(st1);
        assert(consts_from_nums(st1, st2));
        assert(out.consts == st2.consts && out.nidx == st2.nidx);
        assert(st1.consts == Seq::<Value>::empty());
        assert(out.consts =~= num_window(nums, 0, out.nidx));
    }
}

} // verus!

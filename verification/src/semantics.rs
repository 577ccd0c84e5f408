use vstd::prelude::*;

use crate::chunk::{ChunkView, OP_CONSTANT, OP_NEGATE, OP_RETURN};
use crate::compiler::{binop_opcode, empty_emission, infix_prec, parse_fuel, spec_compile,
    spec_parse_infix, spec_parse_prec, CompileError, PREC_TERM, PREC_UNARY};
use crate::numeric::{bits_of_dec, neg_bits};
use crate::scanner::{spec_tokens, SpecToken, TokenKind};
use crate::value::Value;
use crate::vm::{binop_bits, is_binary_op, spec_run, RuntimeError};

verus! {

/// The standard evaluation of the subexpression at token `i`, under the
/// same precedence climbing the parser performs: a literal is its own
/// correctly rounded double; unary minus negates its operand; each binary
/// operator of precedence at least `min_prec` folds into the value from
/// the left, its right operand evaluated one level tighter — that is,
/// left-to-right, left-associative, `* /` before `+ -`, all in IEEE-754
/// double arithmetic over bit patterns. Yields the value and the position
/// after the subexpression, or `None` where no subexpression stands there.
pub open spec fn spec_eval_prec(
    src: Seq<u8>,
    ts: Seq<SpecToken>,
    i: int,
    min_prec: int,
    fuel: nat,
) -> Option<(u64, int)>
    decreases fuel,
{
    if fuel == 0 {
        None
    } else if !(0 <= i < ts.len()) {
        None
    } else {
        let t = ts[i];
        match t.kind {
            TokenKind::Number => {
                match bits_of_dec(src.subrange(t.start, t.start + t.len)) {
                    Option::Some(bits) => spec_eval_infix(
                        src,
                        ts,
                        i + 1,
                        bits,
                        min_prec,
                        (fuel - 1) as nat,
                    ),
                    Option::None => None,
                }
            },
            TokenKind::LeftParen => {
                match spec_eval_prec(src, ts, i + 1, PREC_TERM as int, (fuel - 1) as nat) {
                    Option::Some((v, j)) => {
                        if 0 <= j < ts.len() && ts[j].kind == TokenKind::RightParen {
                            spec_eval_infix(src, ts, j + 1, v, min_prec, (fuel - 1) as nat)
                        } else {
                            None
                        }
                    },
                    Option::None => None,
                }
            },
            TokenKind::Minus => {
                match spec_eval_prec(src, ts, i + 1, PREC_UNARY as int, (fuel - 1) as nat) {
                    Option::Some((v, j)) => spec_eval_infix(
                        src,
                        ts,
                        j,
                        neg_bits(v),
                        min_prec,
                        (fuel - 1) as nat,
                    ),
                    Option::None => None,
                }
            },
            _ => None,
        }
    }
}

/// The infix half of `spec_eval_prec`: folds operators of precedence at
/// least `min_prec` into the value `acc` carried from the left.
pub open spec fn spec_eval_infix(
    src: Seq<u8>,
    ts: Seq<SpecToken>,
    i: int,
    acc: u64,
    min_prec: int,
    fuel: nat,
) -> Option<(u64, int)>
    decreases fuel,
{
    if fuel == 0 {
        None
    } else if !(0 <= i < ts.len()) {
        Some((acc, i))
    } else {
        let t = ts[i];
        let p = infix_prec(t.kind);
        if p == 0 || p < min_prec {
            Some((acc, i))
        } else {
            match spec_eval_prec(src, ts, i + 1, p + 1, (fuel - 1) as nat) {
                Option::Some((v, j)) => spec_eval_infix(
                    src,
                    ts,
                    j,
                    binop_bits(binop_opcode(t.kind), acc, v),
                    min_prec,
                    (fuel - 1) as nat,
                ),
                Option::None => None,
            }
        }
    }
}

/// The standard evaluation of a whole source text: one expression, then
/// the end of the input.
pub open spec fn spec_eval(src: Seq<u8>) -> Option<u64> {
    let ts = spec_tokens(src);
    match spec_eval_prec(src, ts, 0, PREC_TERM as int, parse_fuel(ts)) {
        Option::Some((v, j)) => {
            if 0 <= j < ts.len() && ts[j].kind == TokenKind::Eof {
                Some(v)
            } else {
                None
            }
        },
        Option::None => None,
    }
}

proof fn lemma_prefix_trans<T>(a: Seq<T>, b: Seq<T>, c: Seq<T>)
    requires
        a.len() <= b.len() <= c.len(),
        b.subrange(0, a.len() as int) == a,
        c.subrange(0, b.len() as int) == b,
    ensures
        c.subrange(0, a.len() as int) == a,
{
    assert forall|k: int| 0 <= k < a.len() implies c[k] == a[k] by {
        assert(b.subrange(0, a.len() as int)[k] == a[k]);
        assert(c.subrange(0, b.len() as int)[k] == b[k]);
    }
    assert(c.subrange(0, a.len() as int) =~= a);
}

/// A successful parse only appends: the emission state it started from is
/// a prefix of the one it returns, in both code and constant pool.
proof fn lemma_parse_prec_shape(
    src: Seq<u8>,
    ts: Seq<SpecToken>,
    i: int,
    em: ChunkView,
    mp: int,
    fuel: nat,
    em2: ChunkView,
    j: int,
)
    requires
        spec_parse_prec(src, ts, i, em, mp, fuel) == Some(
            Ok::<(ChunkView, int), CompileError>((em2, j)),
        ),
    ensures
        em.code.len() <= em2.code.len(),
        em2.code.subrange(0, em.code.len() as int) == em.code,
        em.constants.len() <= em2.constants.len(),
        em2.constants.subrange(0, em.constants.len() as int) == em.constants,
    decreases fuel,
{
    let t = ts[i];
    match t.kind {
        TokenKind::Number => {
            let bits = bits_of_dec(src.subrange(t.start, t.start + t.len))->Some_0;
            let em1 = ChunkView {
                code: em.code.push(OP_CONSTANT).push(em.constants.len() as u8),
                lines: em.lines.push(t.line as usize).push(t.line as usize),
                constants: em.constants.push(Value::Number(bits)),
            };
            lemma_parse_infix_shape(src, ts, i + 1, em1, mp, (fuel - 1) as nat, em2, j);
            assert(em1.code.subrange(0, em.code.len() as int) =~= em.code);
            assert(em1.constants.subrange(0, em.constants.len() as int) =~= em.constants);
            lemma_prefix_trans(em.code, em1.code, em2.code);
            lemma_prefix_trans(em.constants, em1.constants, em2.constants);
        },
        TokenKind::LeftParen => {
            let inner = spec_parse_prec(src, ts, i + 1, em, PREC_TERM as int, (fuel - 1) as nat);
            let (em1, j1) = inner->Some_0->Ok_0;
            lemma_parse_prec_shape(src, ts, i + 1, em, PREC_TERM as int, (fuel - 1) as nat, em1, j1);
            lemma_parse_infix_shape(src, ts, j1 + 1, em1, mp, (fuel - 1) as nat, em2, j);
            lemma_prefix_trans(em.code, em1.code, em2.code);
            lemma_prefix_trans(em.constants, em1.constants, em2.constants);
        },
        TokenKind::Minus => {
            let inner = spec_parse_prec(src, ts, i + 1, em, PREC_UNARY as int, (fuel - 1) as nat);
            let (em1, j1) = inner->Some_0->Ok_0;
            lemma_parse_prec_shape(src, ts, i + 1, em, PREC_UNARY as int, (fuel - 1) as nat, em1, j1);
            let em1b = ChunkView {
                code: em1.code.push(OP_NEGATE),
                lines: em1.lines.push(t.line as usize),
                constants: em1.constants,
            };
            lemma_parse_infix_shape(src, ts, j1, em1b, mp, (fuel - 1) as nat, em2, j);
            assert(em1b.code.subrange(0, em1.code.len() as int) =~= em1.code);
            lemma_prefix_trans(em1.code, em1b.code, em2.code);
            lemma_prefix_trans(em.code, em1.code, em2.code);
            lemma_prefix_trans(em.constants, em1.constants, em2.constants);
        },
        _ => {
        },
    }
}

/// As `lemma_parse_prec_shape`, for the infix half.
proof fn lemma_parse_infix_shape(
    src: Seq<u8>,
    ts: Seq<SpecToken>,
    i: int,
    em: ChunkView,
    mp: int,
    fuel: nat,
    em2: ChunkView,
    j: int,
)
    requires
        spec_parse_infix(src, ts, i, em, mp, fuel) == Some(
            Ok::<(ChunkView, int), CompileError>((em2, j)),
        ),
    ensures
        em.code.len() <= em2.code.len(),
        em2.code.subrange(0, em.code.len() as int) == em.code,
        em.constants.len() <= em2.constants.len(),
        em2.constants.subrange(0, em.constants.len() as int) == em.constants,
    decreases fuel,
{
    if !(0 <= i < ts.len()) {
        assert(em2.code.subrange(0, em.code.len() as int) =~= em.code);
        assert(em2.constants.subrange(0, em.constants.len() as int) =~= em.constants);
    } else {
        let t = ts[i];
        let p = infix_prec(t.kind);
        if p == 0 || p < mp {
            assert(em2.code.subrange(0, em.code.len() as int) =~= em.code);
            assert(em2.constants.subrange(0, em.constants.len() as int) =~= em.constants);
        } else {
            let inner = spec_parse_prec(src, ts, i + 1, em, p + 1, (fuel - 1) as nat);
            let (em1, j1) = inner->Some_0->Ok_0;
            lemma_parse_prec_shape(src, ts, i + 1, em, p + 1, (fuel - 1) as nat, em1, j1);
            let em1b = ChunkView {
                code: em1.code.push(binop_opcode(t.kind)),
                lines: em1.lines.push(t.line as usize),
                constants: em1.constants,
            };
            lemma_parse_infix_shape(src, ts, j1, em1b, mp, (fuel - 1) as nat, em2, j);
            assert(em1b.code.subrange(0, em1.code.len() as int) =~= em1.code);
            lemma_prefix_trans(em1.code, em1b.code, em2.code);
            lemma_prefix_trans(em.code, em1.code, em2.code);
            lemma_prefix_trans(em.constants, em1.constants, em2.constants);
        }
    }
}

/// One CONSTANT step of the machine.
proof fn lemma_step_constant(c: ChunkView, a: int, st: Seq<Value>, idx: u8, v: Value)
    requires
        0 <= a,
        a + 2 <= c.code.len(),
        c.code[a] == OP_CONSTANT,
        c.code[a + 1] == idx,
        (idx as int) < c.constants.len(),
        c.constants[idx as int] == v,
    ensures
        spec_run(c, a, st) == spec_run(c, a + 2, st.push(v)),
{
}

/// One NEGATE step of the machine on a number at the top of the stack.
proof fn lemma_step_negate(c: ChunkView, a: int, st: Seq<Value>, b: u64)
    requires
        0 <= a,
        a + 1 <= c.code.len(),
        c.code[a] == OP_NEGATE,
    ensures
        spec_run(c, a, st.push(Value::Number(b))) == spec_run(
            c,
            a + 1,
            st.push(Value::Number(neg_bits(b))),
        ),
{
    let st1 = st.push(Value::Number(b));
    assert(st1.last() == Value::Number(b));
    assert(st1.drop_last() =~= st);
}

/// One binary-arithmetic step of the machine on two numbers at the top of
/// the stack.
proof fn lemma_step_binop(c: ChunkView, a: int, st: Seq<Value>, op: u8, x: u64, y: u64)
    requires
        0 <= a,
        a + 1 <= c.code.len(),
        c.code[a] == op,
        is_binary_op(op),
    ensures
        spec_run(c, a, st.push(Value::Number(x)).push(Value::Number(y))) == spec_run(
            c,
            a + 1,
            st.push(Value::Number(binop_bits(op, x, y))),
        ),
{
    let st2 = st.push(Value::Number(x)).push(Value::Number(y));
    assert(st2.last() == Value::Number(y));
    assert(st2[st2.len() - 2] == Value::Number(x));
    assert(st2.drop_last().drop_last() =~= st);
}

/// The heart of the compiler-correctness proof: the code a successful
/// parse emits, executed from any position of any chunk that carries that
/// code and the parse's new constants, pushes exactly the value the
/// standard evaluation gives the subexpression, and continues after the
/// emitted code — a pushing segment, never a fault.
proof fn lemma_parse_prec_correct(
    src: Seq<u8>,
    ts: Seq<SpecToken>,
    i: int,
    em: ChunkView,
    mp: int,
    fuel: nat,
    em2: ChunkView,
    j: int,
    c: ChunkView,
    a: int,
    st: Seq<Value>,
)
    requires
        spec_parse_prec(src, ts, i, em, mp, fuel) == Some(
            Ok::<(ChunkView, int), CompileError>((em2, j)),
        ),
        em.code.len() <= em2.code.len(),
        em.constants.len() <= em2.constants.len(),
        0 <= a,
        a + em2.code.len() - em.code.len() <= c.code.len(),
        c.code.subrange(a, a + em2.code.len() - em.code.len()) == em2.code.subrange(
            em.code.len() as int,
            em2.code.len() as int,
        ),
        em2.constants.len() <= c.constants.len(),
        c.constants.subrange(em.constants.len() as int, em2.constants.len() as int)
            == em2.constants.subrange(em.constants.len() as int, em2.constants.len() as int),
    ensures
        spec_eval_prec(src, ts, i, mp, fuel) matches Some((v, j2)) && j2 == j && spec_run(c, a, st)
            == spec_run(c, a + em2.code.len() - em.code.len(), st.push(Value::Number(v))),
    decreases fuel,
{
    let n0 = em.code.len() as int;
    let n2 = em2.code.len() as int;
    let p0 = em.constants.len() as int;
    let p2 = em2.constants.len() as int;
    let t = ts[i];
    match t.kind {
        TokenKind::Number => {
            let bits = bits_of_dec(src.subrange(t.start, t.start + t.len))->Some_0;
            let em1 = ChunkView {
                code: em.code.push(OP_CONSTANT).push(em.constants.len() as u8),
                lines: em.lines.push(t.line as usize).push(t.line as usize),
                constants: em.constants.push(Value::Number(bits)),
            };
            let idx = em.constants.len() as u8;
            lemma_parse_infix_shape(src, ts, i + 1, em1, mp, (fuel - 1) as nat, em2, j);
            let n1 = em1.code.len() as int;
            let p1 = em1.constants.len() as int;
            // The two instruction bytes, read off em2 and then off c.
            assert(em2.code[n0] == OP_CONSTANT && em2.code[n0 + 1] == idx) by {
                assert(em2.code.subrange(0, n1)[n0] == em1.code[n0]);
                assert(em2.code.subrange(0, n1)[n0 + 1] == em1.code[n0 + 1]);
            }
            assert(c.code.subrange(a, a + n2 - n0)[0] == em2.code.subrange(n0, n2)[0]);
            assert(c.code.subrange(a, a + n2 - n0)[1] == em2.code.subrange(n0, n2)[1]);
            assert(c.code[a] == OP_CONSTANT && c.code[a + 1] == idx);
            // The fresh constant, read off em2 and then off c.
            assert(em2.constants[p0] == Value::Number(bits)) by {
                assert(em2.constants.subrange(0, p1)[p0] == em1.constants[p0]);
            }
            assert(c.constants.subrange(p0, p2)[0] == em2.constants.subrange(p0, p2)[0]);
            assert(c.constants[p0] == Value::Number(bits));
            lemma_step_constant(c, a, st, idx, Value::Number(bits));
            // The rest of the segment belongs to the infix continuation.
            assert forall|k: int|
                0 <= k < n2 - n1 implies c.code.subrange(a + 2, a + 2 + (n2 - n1))[k]
                == em2.code.subrange(n1, n2)[k] by {
                assert(c.code.subrange(a, a + (n2 - n0))[k + 2] == em2.code.subrange(n0, n2)[k
                    + 2]);
            }
            assert(c.code.subrange(a + 2, a + 2 + (n2 - n1)) =~= em2.code.subrange(n1, n2));
            assert forall|k: int|
                0 <= k < p2 - p1 implies c.constants.subrange(p1, p2)[k]
                == em2.constants.subrange(p1, p2)[k] by {
                assert(c.constants.subrange(p0, p2)[k + 1] == em2.constants.subrange(p0, p2)[k
                    + 1]);
            }
            assert(c.constants.subrange(p1, p2) =~= em2.constants.subrange(p1, p2));
            lemma_parse_infix_correct(
                src,
                ts,
                i + 1,
                em1,
                mp,
                (fuel - 1) as nat,
                em2,
                j,
                c,
                a + 2,
                st,
                bits,
            );
        },
        TokenKind::LeftParen => {
            let inner = spec_parse_prec(src, ts, i + 1, em, PREC_TERM as int, (fuel - 1) as nat);
            let (em1, j1) = inner->Some_0->Ok_0;
            lemma_parse_prec_shape(
                src,
                ts,
                i + 1,
                em,
                PREC_TERM as int,
                (fuel - 1) as nat,
                em1,
                j1,
            );
            lemma_parse_infix_shape(src, ts, j1 + 1, em1, mp, (fuel - 1) as nat, em2, j);
            let n1 = em1.code.len() as int;
            let p1 = em1.constants.len() as int;
            // Restrict the segment premises to the operand's part.
            assert forall|k: int|
                0 <= k < n1 - n0 implies c.code.subrange(a, a + (n1 - n0))[k]
                == em1.code.subrange(n0, n1)[k] by {
                assert(c.code.subrange(a, a + (n2 - n0))[k] == em2.code.subrange(n0, n2)[k]);
                assert(em2.code.subrange(0, n1)[n0 + k] == em1.code[n0 + k]);
            }
            assert(c.code.subrange(a, a + (n1 - n0)) =~= em1.code.subrange(n0, n1));
            assert forall|k: int|
                0 <= k < p1 - p0 implies c.constants.subrange(p0, p1)[k]
                == em1.constants.subrange(p0, p1)[k] by {
                assert(c.constants.subrange(p0, p2)[k] == em2.constants.subrange(p0, p2)[k]);
                assert(em2.constants.subrange(0, p1)[p0 + k] == em1.constants[p0 + k]);
            }
            assert(c.constants.subrange(p0, p1) =~= em1.constants.subrange(p0, p1));
            lemma_parse_prec_correct(
                src,
                ts,
                i + 1,
                em,
                PREC_TERM as int,
                (fuel - 1) as nat,
                em1,
                j1,
                c,
                a,
                st,
            );
            let v1 = spec_eval_prec(src, ts, i + 1, PREC_TERM as int, (fuel - 1) as nat)
                ->Some_0.0;
            let a1 = a + (n1 - n0);
            // The rest of the segment belongs to the infix continuation.
            assert forall|k: int|
                0 <= k < n2 - n1 implies c.code.subrange(a1, a1 + (n2 - n1))[k]
                == em2.code.subrange(n1, n2)[k] by {
                assert(c.code.subrange(a, a + (n2 - n0))[k + (n1 - n0)] == em2.code.subrange(
                    n0,
                    n2,
                )[k + (n1 - n0)]);
            }
            assert(c.code.subrange(a1, a1 + (n2 - n1)) =~= em2.code.subrange(n1, n2));
            assert forall|k: int|
                0 <= k < p2 - p1 implies c.constants.subrange(p1, p2)[k]
                == em2.constants.subrange(p1, p2)[k] by {
                assert(c.constants.subrange(p0, p2)[k + (p1 - p0)] == em2.constants.subrange(
                    p0,
                    p2,
                )[k + (p1 - p0)]);
            }
            assert(c.constants.subrange(p1, p2) =~= em2.constants.subrange(p1, p2));
            lemma_parse_infix_correct(
                src,
                ts,
                j1 + 1,
                em1,
                mp,
                (fuel - 1) as nat,
                em2,
                j,
                c,
                a1,
                st,
                v1,
            );
        },
        TokenKind::Minus => {
            let inner = spec_parse_prec(src, ts, i + 1, em, PREC_UNARY as int, (fuel - 1) as nat);
            let (em1, j1) = inner->Some_0->Ok_0;
            lemma_parse_prec_shape(
                src,
                ts,
                i + 1,
                em,
                PREC_UNARY as int,
                (fuel - 1) as nat,
                em1,
                j1,
            );
            let em1b = ChunkView {
                code: em1.code.push(OP_NEGATE),
                lines: em1.lines.push(t.line as usize),
                constants: em1.constants,
            };
            lemma_parse_infix_shape(src, ts, j1, em1b, mp, (fuel - 1) as nat, em2, j);
            assert(em1b.code.subrange(0, em1.code.len() as int) =~= em1.code);
            lemma_prefix_trans(em1.code, em1b.code, em2.code);
            let n1 = em1.code.len() as int;
            let p1 = em1.constants.len() as int;
            // Restrict the segment premises to the operand's part.
            assert forall|k: int|
                0 <= k < n1 - n0 implies c.code.subrange(a, a + (n1 - n0))[k]
                == em1.code.subrange(n0, n1)[k] by {
                assert(c.code.subrange(a, a + (n2 - n0))[k] == em2.code.subrange(n0, n2)[k]);
                assert(em2.code.subrange(0, n1)[n0 + k] == em1.code[n0 + k]);
            }
            assert(c.code.subrange(a, a + (n1 - n0)) =~= em1.code.subrange(n0, n1));
            assert forall|k: int|
                0 <= k < p1 - p0 implies c.constants.subrange(p0, p1)[k]
                == em1.constants.subrange(p0, p1)[k] by {
                assert(c.constants.subrange(p0, p2)[k] == em2.constants.subrange(p0, p2)[k]);
                assert(em2.constants.subrange(0, p1)[p0 + k] == em1.constants[p0 + k]);
            }
            assert(c.constants.subrange(p0, p1) =~= em1.constants.subrange(p0, p1));
            lemma_parse_prec_correct(
                src,
                ts,
                i + 1,
                em,
                PREC_UNARY as int,
                (fuel - 1) as nat,
                em1,
                j1,
                c,
                a,
                st,
            );
            let v1 = spec_eval_prec(src, ts, i + 1, PREC_UNARY as int, (fuel - 1) as nat)
                ->Some_0.0;
            let an = a + (n1 - n0);
            // The NEGATE byte right after the operand's code.
            assert(em2.code[n1] == OP_NEGATE) by {
                assert(em2.code.subrange(0, em1b.code.len() as int)[n1] == em1b.code[n1]);
            }
            assert(c.code.subrange(a, a + (n2 - n0))[n1 - n0] == em2.code.subrange(n0, n2)[n1
                - n0]);
            assert(c.code[an] == OP_NEGATE);
            lemma_step_negate(c, an, st, v1);
            // The rest of the segment belongs to the infix continuation.
            let n1b = em1b.code.len() as int;
            assert forall|k: int|
                0 <= k < n2 - n1b implies c.code.subrange(an + 1, an + 1 + (n2 - n1b))[k]
                == em2.code.subrange(n1b, n2)[k] by {
                assert(c.code.subrange(a, a + (n2 - n0))[k + (n1b - n0)] == em2.code.subrange(
                    n0,
                    n2,
                )[k + (n1b - n0)]);
            }
            assert(c.code.subrange(an + 1, an + 1 + (n2 - n1b)) =~= em2.code.subrange(n1b, n2));
            assert forall|k: int|
                0 <= k < p2 - p1 implies c.constants.subrange(p1, p2)[k]
                == em2.constants.subrange(p1, p2)[k] by {
                assert(c.constants.subrange(p0, p2)[k + (p1 - p0)] == em2.constants.subrange(
                    p0,
                    p2,
                )[k + (p1 - p0)]);
            }
            assert(c.constants.subrange(p1, p2) =~= em2.constants.subrange(p1, p2));
            lemma_parse_infix_correct(
                src,
                ts,
                j1,
                em1b,
                mp,
                (fuel - 1) as nat,
                em2,
                j,
                c,
                an + 1,
                st,
                neg_bits(v1),
            );
        },
        _ => {
        },
    }
}

/// As `lemma_parse_prec_correct`, for the infix half: with the left value
/// `acc` already on the stack, the emitted code folds the operators into
/// it exactly as the standard evaluation does.
proof fn lemma_parse_infix_correct(
    src: Seq<u8>,
    ts: Seq<SpecToken>,
    i: int,
    em: ChunkView,
    mp: int,
    fuel: nat,
    em2: ChunkView,
    j: int,
    c: ChunkView,
    a: int,
    st: Seq<Value>,
    acc: u64,
)
    requires
        spec_parse_infix(src, ts, i, em, mp, fuel) == Some(
            Ok::<(ChunkView, int), CompileError>((em2, j)),
        ),
        em.code.len() <= em2.code.len(),
        em.constants.len() <= em2.constants.len(),
        0 <= a,
        a + em2.code.len() - em.code.len() <= c.code.len(),
        c.code.subrange(a, a + em2.code.len() - em.code.len()) == em2.code.subrange(
            em.code.len() as int,
            em2.code.len() as int,
        ),
        em2.constants.len() <= c.constants.len(),
        c.constants.subrange(em.constants.len() as int, em2.constants.len() as int)
            == em2.constants.subrange(em.constants.len() as int, em2.constants.len() as int),
    ensures
        spec_eval_infix(src, ts, i, acc, mp, fuel) matches Some((w, j2)) && j2 == j && spec_run(
            c,
            a,
            st.push(Value::Number(acc)),
        ) == spec_run(
            c,
            a + em2.code.len() - em.code.len(),
            st.push(Value::Number(w)),
        ),
    decreases fuel,
{
    let n0 = em.code.len() as int;
    let n2 = em2.code.len() as int;
    let p0 = em.constants.len() as int;
    let p2 = em2.constants.len() as int;
    if !(0 <= i < ts.len()) {
    } else {
        let t = ts[i];
        let p = infix_prec(t.kind);
        if p == 0 || p < mp {
        } else {
            let inner = spec_parse_prec(src, ts, i + 1, em, p + 1, (fuel - 1) as nat);
            let (em1, j1) = inner->Some_0->Ok_0;
            lemma_parse_prec_shape(src, ts, i + 1, em, p + 1, (fuel - 1) as nat, em1, j1);
            let opb = binop_opcode(t.kind);
            let em1b = ChunkView {
                code: em1.code.push(opb),
                lines: em1.lines.push(t.line as usize),
                constants: em1.constants,
            };
            lemma_parse_infix_shape(src, ts, j1, em1b, mp, (fuel - 1) as nat, em2, j);
            assert(em1b.code.subrange(0, em1.code.len() as int) =~= em1.code);
            lemma_prefix_trans(em1.code, em1b.code, em2.code);
            let n1 = em1.code.len() as int;
            let p1 = em1.constants.len() as int;
            // Restrict the segment premises to the right operand's part.
            assert forall|k: int|
                0 <= k < n1 - n0 implies c.code.subrange(a, a + (n1 - n0))[k]
                == em1.code.subrange(n0, n1)[k] by {
                assert(c.code.subrange(a, a + (n2 - n0))[k] == em2.code.subrange(n0, n2)[k]);
                assert(em2.code.subrange(0, n1)[n0 + k] == em1.code[n0 + k]);
            }
            assert(c.code.subrange(a, a + (n1 - n0)) =~= em1.code.subrange(n0, n1));
            assert forall|k: int|
                0 <= k < p1 - p0 implies c.constants.subrange(p0, p1)[k]
                == em1.constants.subrange(p0, p1)[k] by {
                assert(c.constants.subrange(p0, p2)[k] == em2.constants.subrange(p0, p2)[k]);
                assert(em2.constants.subrange(0, p1)[p0 + k] == em1.constants[p0 + k]);
            }
            assert(c.constants.subrange(p0, p1) =~= em1.constants.subrange(p0, p1));
            lemma_parse_prec_correct(
                src,
                ts,
                i + 1,
                em,
                p + 1,
                (fuel - 1) as nat,
                em1,
                j1,
                c,
                a,
                st.push(Value::Number(acc)),
            );
            let v1 = spec_eval_prec(src, ts, i + 1, p + 1, (fuel - 1) as nat)->Some_0.0;
            let ao = a + (n1 - n0);
            // The operator's byte right after the operand's code.
            assert(em2.code[n1] == opb) by {
                assert(em2.code.subrange(0, em1b.code.len() as int)[n1] == em1b.code[n1]);
            }
            assert(c.code.subrange(a, a + (n2 - n0))[n1 - n0] == em2.code.subrange(n0, n2)[n1
                - n0]);
            assert(c.code[ao] == opb);
            lemma_step_binop(c, ao, st, opb, acc, v1);
            // The rest of the segment belongs to the infix continuation.
            let n1b = em1b.code.len() as int;
            assert forall|k: int|
                0 <= k < n2 - n1b implies c.code.subrange(ao + 1, ao + 1 + (n2 - n1b))[k]
                == em2.code.subrange(n1b, n2)[k] by {
                assert(c.code.subrange(a, a + (n2 - n0))[k + (n1b - n0)] == em2.code.subrange(
                    n0,
                    n2,
                )[k + (n1b - n0)]);
            }
            assert(c.code.subrange(ao + 1, ao + 1 + (n2 - n1b)) =~= em2.code.subrange(n1b, n2));
            assert forall|k: int|
                0 <= k < p2 - p1 implies c.constants.subrange(p1, p2)[k]
                == em2.constants.subrange(p1, p2)[k] by {
                assert(c.constants.subrange(p0, p2)[k + (p1 - p0)] == em2.constants.subrange(
                    p0,
                    p2,
                )[k + (p1 - p0)]);
            }
            assert(c.constants.subrange(p1, p2) =~= em2.constants.subrange(p1, p2));
            lemma_parse_infix_correct(
                src,
                ts,
                j1,
                em1b,
                mp,
                (fuel - 1) as nat,
                em2,
                j,
                c,
                ao + 1,
                st,
                binop_bits(opb, acc, v1),
            );
        }
    }
}

/// Law: a compiled chunk computes its source's arithmetic. For every
/// source text that compiles, the standard left-to-right,
/// precedence-respecting evaluation (`spec_eval`) is defined, the chunk's
/// execution from a fresh machine halts normally — no type fault and no
/// stack fault arises from compiled code — and the one value it leaves on
/// the stack is exactly that evaluation.
pub proof fn lemma_compile_correct(src: Seq<u8>)
    requires
        spec_compile(src) is Ok,
    ensures
        spec_compile(src) matches Ok(c) ==> (spec_eval(src) matches Some(v) && spec_run(
            c,
            0,
            Seq::empty(),
        ) == Ok::<Seq<Value>, RuntimeError>(seq![Value::Number(v)])),
{
    let ts = spec_tokens(src);
    let em0 = empty_emission();
    let pr = spec_parse_prec(src, ts, 0, em0, PREC_TERM as int, parse_fuel(ts));
    let (em, j) = pr->Some_0->Ok_0;
    let c = spec_compile(src)->Ok_0;
    lemma_parse_prec_shape(src, ts, 0, em0, PREC_TERM as int, parse_fuel(ts), em, j);
    assert(c.code =~= em.code.push(OP_RETURN));
    assert(c.constants =~= em.constants);
    let n = em.code.len() as int;
    let pn = em.constants.len() as int;
    assert(c.code.subrange(0, n) =~= em.code.subrange(0, n)) by {
        assert forall|k: int| 0 <= k < n implies c.code.subrange(0, n)[k] == em.code.subrange(
            0,
            n,
        )[k] by {
            assert(c.code[k] == em.code.push(OP_RETURN)[k]);
        }
    }
    assert(c.constants.subrange(0, pn) =~= em.constants.subrange(0, pn));
    lemma_parse_prec_correct(
        src,
        ts,
        0,
        em0,
        PREC_TERM as int,
        parse_fuel(ts),
        em,
        j,
        c,
        0,
        Seq::empty(),
    );
    let v = spec_eval_prec(src, ts, 0, PREC_TERM as int, parse_fuel(ts))->Some_0.0;
    assert(c.code[n] == OP_RETURN);
    assert(spec_run(c, n, Seq::empty().push(Value::Number(v))) == Ok::<Seq<Value>, RuntimeError>(
        Seq::empty().push(Value::Number(v)),
    ));
    assert(Seq::empty().push(Value::Number(v)) =~= seq![Value::Number(v)]);
}

} // verus!

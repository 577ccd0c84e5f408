use vstd::prelude::*;

use crate::chunk::{Chunk, ChunkView, OP_ADD, OP_CONSTANT, OP_DIVIDE, OP_MULTIPLY, OP_NEGATE,
    OP_RETURN, OP_SUBTRACT};
use crate::numeric::{bits_of_dec, num_parse};
use crate::scanner::{scan, spec_tokens, SpecToken, Token, TokenKind};
use crate::value::Value;

verus! {

/// The kind of a compile-time diagnostic.
#[derive(Clone, Copy, PartialEq, Eq, Structural, Debug)]
pub enum CompileErrorKind {
    /// A token that no expression can start with stood where an expression
    /// was expected (including a bare end of input, as after `1 +`).
    ExpectExpression,
    /// A parenthesized expression was not closed.
    ExpectRightParen,
    /// A complete expression was parsed but input remained before the end.
    ExpectEnd,
    /// The scanner met a byte that no token starts with.
    UnexpectedCharacter,
    /// A numeric literal could not be read as a number.
    InvalidNumber,
    /// The constant pool is full: one more constant would not fit the
    /// one-byte operand of the CONSTANT instruction.
    TooManyConstants,
}

/// A compile-time diagnostic: what went wrong and the source line of the
/// construct it concerns. Compilation reports the first such diagnostic;
/// in an expression-only grammar there is no later statement boundary to
/// resynchronize at, so one malformed construct ends the parse.
#[derive(Clone, Copy, PartialEq, Eq, Structural, Debug)]
pub struct CompileError {
    pub kind: CompileErrorKind,
    pub line: usize,
}

impl CompileError {
    /// A human-readable description of the diagnostic.
    pub fn message(&self) -> (m: String)
        ensures
            m@ == match self.kind {
                CompileErrorKind::ExpectExpression => "expect expression"@,
                CompileErrorKind::ExpectRightParen => "expect ')' after expression"@,
                CompileErrorKind::ExpectEnd => "expect end of expression"@,
                CompileErrorKind::UnexpectedCharacter => "unexpected character"@,
                CompileErrorKind::InvalidNumber => "invalid number literal"@,
                CompileErrorKind::TooManyConstants => "too many constants in one chunk"@,
            },
    {
        match self.kind {
            CompileErrorKind::ExpectExpression => String::from_str("expect expression"),
            CompileErrorKind::ExpectRightParen => String::from_str("expect ')' after expression"),
            CompileErrorKind::ExpectEnd => String::from_str("expect end of expression"),
            CompileErrorKind::UnexpectedCharacter => String::from_str("unexpected character"),
            CompileErrorKind::InvalidNumber => String::from_str("invalid number literal"),
            CompileErrorKind::TooManyConstants => String::from_str(
                "too many constants in one chunk",
            ),
        }
    }
}

/// The lowest operative binding precedence: `+` and `-`. Parsing a whole
/// expression parses at this level.
pub const PREC_TERM: u8 = 1;
/// The binding precedence of `*` and `/`.
pub const PREC_FACTOR: u8 = 2;
/// The binding precedence of unary `-`, tighter than any binary operator.
pub const PREC_UNARY: u8 = 3;

/// The infix binding precedence of a token kind; 0 where the kind is no
/// binary operator of the arithmetic core.
pub open spec fn infix_prec(k: TokenKind) -> int {
    match k {
        TokenKind::Plus => PREC_TERM as int,
        TokenKind::Minus => PREC_TERM as int,
        TokenKind::Star => PREC_FACTOR as int,
        TokenKind::Slash => PREC_FACTOR as int,
        _ => 0,
    }
}

/// The opcode a binary operator token compiles to.
pub open spec fn binop_opcode(k: TokenKind) -> u8 {
    match k {
        TokenKind::Plus => OP_ADD,
        TokenKind::Minus => OP_SUBTRACT,
        TokenKind::Star => OP_MULTIPLY,
        _ => OP_DIVIDE,
    }
}

/// Appending one code byte to an emission state.
pub open spec fn emit_byte(em: ChunkView, b: u8, line: int) -> ChunkView {
    ChunkView {
        code: em.code.push(b),
        lines: em.lines.push(line as usize),
        constants: em.constants,
    }
}

/// Appending a CONSTANT instruction for a fresh pool entry: the new value
/// takes the next pool index, and the opcode with that index follows the
/// code emitted so far. Fails exactly when the pool already holds 256
/// values, the most a one-byte operand can name.
pub open spec fn emit_constant(em: ChunkView, v: Value, line: int) -> Result<
    ChunkView,
    CompileError,
> {
    if em.constants.len() >= 256 {
        Err(CompileError { kind: CompileErrorKind::TooManyConstants, line: line as usize })
    } else {
        Ok(
            ChunkView {
                code: em.code.push(OP_CONSTANT).push(em.constants.len() as u8),
                lines: em.lines.push(line as usize).push(line as usize),
                constants: em.constants.push(v),
            },
        )
    }
}

/// One parse of a subexpression at minimum binding precedence `min_prec`,
/// starting at token `i` with emission state `em`: the emission state and
/// next token position on success, the first diagnostic on failure, `None`
/// only when `fuel` runs out (the executable parser shows any fuel of at
/// least `remaining tokens + 2` never does).
///
/// The grammar is precedence-climbing: a prefix (a number literal, which
/// emits CONSTANT on a fresh pool index; a parenthesized expression; or
/// unary minus, whose operand parses at `PREC_UNARY` and which then emits
/// NEGATE), followed by binary operators of precedence at least
/// `min_prec`, each parsing its right operand one level tighter
/// (left-associativity) and then emitting its opcode — so completed
/// subexpressions stand in the code in postfix order.
pub open spec fn spec_parse_prec(
    src: Seq<u8>,
    ts: Seq<SpecToken>,
    i: int,
    em: ChunkView,
    min_prec: int,
    fuel: nat,
) -> Option<Result<(ChunkView, int), CompileError>>
    decreases fuel,
{
    if fuel == 0 {
        None
    } else if !(0 <= i < ts.len()) {
        Some(Err(CompileError { kind: CompileErrorKind::ExpectExpression, line: 0 }))
    } else {
        let t = ts[i];
        match t.kind {
            TokenKind::Number => {
                let lex = src.subrange(t.start, t.start + t.len);
                match bits_of_dec(lex) {
                    Option::None => Some(
                        Err(
                            CompileError {
                                kind: CompileErrorKind::InvalidNumber,
                                line: t.line as usize,
                            },
                        ),
                    ),
                    Option::Some(bits) => match emit_constant(em, Value::Number(bits), t.line) {
                        Err(e) => Some(Err(e)),
                        Ok(em1) => spec_parse_infix(
                            src,
                            ts,
                            i + 1,
                            em1,
                            min_prec,
                            (fuel - 1) as nat,
                        ),
                    },
                }
            },
            TokenKind::LeftParen => {
                match spec_parse_prec(src, ts, i + 1, em, PREC_TERM as int, (fuel - 1) as nat) {
                    Option::None => None,
                    Option::Some(Err(e)) => Some(Err(e)),
                    Option::Some(Ok((em1, j))) => {
                        if 0 <= j < ts.len() && ts[j].kind == TokenKind::RightParen {
                            spec_parse_infix(src, ts, j + 1, em1, min_prec, (fuel - 1) as nat)
                        } else if 0 <= j < ts.len() {
                            Some(
                                Err(
                                    CompileError {
                                        kind: CompileErrorKind::ExpectRightParen,
                                        line: ts[j].line as usize,
                                    },
                                ),
                            )
                        } else {
                            Some(
                                Err(
                                    CompileError {
                                        kind: CompileErrorKind::ExpectRightParen,
                                        line: t.line as usize,
                                    },
                                ),
                            )
                        }
                    },
                }
            },
            TokenKind::Minus => {
                match spec_parse_prec(src, ts, i + 1, em, PREC_UNARY as int, (fuel - 1) as nat) {
                    Option::None => None,
                    Option::Some(Err(e)) => Some(Err(e)),
                    Option::Some(Ok((em1, j))) => spec_parse_infix(
                        src,
                        ts,
                        j,
                        emit_byte(em1, OP_NEGATE, t.line),
                        min_prec,
                        (fuel - 1) as nat,
                    ),
                }
            },
            TokenKind::Error => Some(
                Err(
                    CompileError {
                        kind: CompileErrorKind::UnexpectedCharacter,
                        line: t.line as usize,
                    },
                ),
            ),
            _ => Some(
                Err(
                    CompileError {
                        kind: CompileErrorKind::ExpectExpression,
                        line: t.line as usize,
                    },
                ),
            ),
        }
    }
}

/// The infix half of `spec_parse_prec`: from token `i`, as long as the
/// current token is a binary operator binding at least as tightly as
/// `min_prec`, parse its right operand one level tighter and emit the
/// operator's opcode; stop (successfully) at any other token.
pub open spec fn spec_parse_infix(
    src: Seq<u8>,
    ts: Seq<SpecToken>,
    i: int,
    em: ChunkView,
    min_prec: int,
    fuel: nat,
) -> Option<Result<(ChunkView, int), CompileError>>
    decreases fuel,
{
    if fuel == 0 {
        None
    } else if !(0 <= i < ts.len()) {
        Some(Ok((em, i)))
    } else {
        let t = ts[i];
        let p = infix_prec(t.kind);
        if p == 0 || p < min_prec {
            Some(Ok((em, i)))
        } else {
            match spec_parse_prec(src, ts, i + 1, em, p + 1, (fuel - 1) as nat) {
                Option::None => None,
                Option::Some(Err(e)) => Some(Err(e)),
                Option::Some(Ok((em1, j))) => spec_parse_infix(
                    src,
                    ts,
                    j,
                    emit_byte(em1, binop_opcode(t.kind), t.line),
                    min_prec,
                    (fuel - 1) as nat,
                ),
            }
        }
    }
}

/// The empty emission state a compilation starts from.
pub open spec fn empty_emission() -> ChunkView {
    ChunkView { code: Seq::empty(), lines: Seq::empty(), constants: Seq::empty() }
}

/// Fuel that always suffices to parse a token stream: see `compile`, whose
/// verification shows the parse is `Some` at this fuel.
pub open spec fn parse_fuel(ts: Seq<SpecToken>) -> nat {
    (ts.len() + 2) as nat
}

/// What compiling a source text yields: scan it, parse one expression from
/// the start of the token stream, demand the end of input right after, and
/// close the code with RETURN. This function is the whole compiler's
/// reference: it is deterministic in the source text alone, so compiling
/// the same text twice yields the same chunk and the same diagnostics.
pub open spec fn spec_compile(src: Seq<u8>) -> Result<ChunkView, CompileError> {
    let ts = spec_tokens(src);
    match spec_parse_prec(src, ts, 0, empty_emission(), PREC_TERM as int, parse_fuel(ts)) {
        Option::None => Err(CompileError { kind: CompileErrorKind::ExpectExpression, line: 0 }),
        Option::Some(Err(e)) => Err(e),
        Option::Some(Ok((em, j))) => {
            if 0 <= j < ts.len() && ts[j].kind == TokenKind::Eof {
                Ok(emit_byte(em, OP_RETURN, ts[j].line))
            } else if 0 <= j < ts.len() {
                Err(CompileError { kind: CompileErrorKind::ExpectEnd, line: ts[j].line as usize })
            } else {
                Err(CompileError { kind: CompileErrorKind::ExpectEnd, line: 0 })
            }
        },
    }
}

/// The token sequence a scanned vector stands for.
pub open spec fn tsv(ts: Seq<Token>) -> Seq<SpecToken> {
    ts.map_values(|t: Token| t@)
}

/// What the parser relies on of a scanned token vector: one closing `Eof`,
/// nothing after it, and every lexeme range inside the source.
pub open spec fn tokens_ok(ts: Seq<Token>, src_len: int) -> bool {
    &&& ts.len() >= 1
    &&& ts.last().kind == TokenKind::Eof
    &&& (forall|k: int| 0 <= k < ts.len() - 1 ==> ts[k].kind != TokenKind::Eof)
    &&& (forall|k: int| 0 <= k < ts.len() ==> ts[k].start + ts[k].len <= src_len)
}

/// The infix binding precedence of a token, as `infix_prec` gives it.
fn prec_of(k: TokenKind) -> (p: u8)
    ensures
        p as int == infix_prec(k),
{
    match k {
        TokenKind::Plus => PREC_TERM,
        TokenKind::Minus => PREC_TERM,
        TokenKind::Star => PREC_FACTOR,
        TokenKind::Slash => PREC_FACTOR,
        _ => 0,
    }
}

/// The opcode of a binary operator token, as `binop_opcode` gives it.
fn opcode_of(k: TokenKind) -> (b: u8)
    ensures
        b == binop_opcode(k),
{
    match k {
        TokenKind::Plus => OP_ADD,
        TokenKind::Minus => OP_SUBTRACT,
        TokenKind::Star => OP_MULTIPLY,
        _ => OP_DIVIDE,
    }
}

/// Parses one subexpression at minimum precedence `min_prec` from token
/// `i`, emitting into `chunk`; returns the position of the first token
/// after it. The outcome and the emission are exactly those of
/// `spec_parse_prec` on the same state, at any sufficient fuel.
fn parse_prec(src: &[u8], ts: &Vec<Token>, i: usize, min_prec: u8, chunk: &mut Chunk) -> (r:
    Result<usize, CompileError>)
    requires
        tokens_ok(ts@, src@.len() as int),
        i < ts@.len(),
    ensures
        match r {
            Ok(j) => {
                &&& i < j < ts@.len()
                &&& (old(chunk)@.aligned() ==> final(chunk)@.aligned())
                &&& (forall|fuel: nat|
                    fuel >= ts@.len() - i + 2 ==> spec_parse_prec(
                        src@,
                        tsv(ts@),
                        i as int,
                        old(chunk)@,
                        min_prec as int,
                        fuel,
                    ) == Some(Ok::<(ChunkView, int), CompileError>((final(chunk)@, j as int))))
            },
            Err(e) => forall|fuel: nat|
                fuel >= ts@.len() - i + 2 ==> spec_parse_prec(
                    src@,
                    tsv(ts@),
                    i as int,
                    old(chunk)@,
                    min_prec as int,
                    fuel,
                ) == Some(Err::<(ChunkView, int), CompileError>(e)),
        },
    decreases ts@.len() - i,
{
    let n = ts.len();
    let sn = src.len();
    let ghost em0 = chunk@;
    let t = ts[i];
    proof {
        assert(n == ts@.len() && sn == src@.len());
        assert(tsv(ts@)[i as int] == ts@[i as int]@);
    }
    match t.kind {
        TokenKind::Number => {
            proof {
                assert(i as int != ts@.len() - 1);
            }
            let end = t.start + t.len;
            let lex = vstd::slice::slice_subrange(src, t.start, end);
            let parsed = num_parse(lex);
            let bits = match parsed {
                Some(b) => b,
                None => {
                    let e = CompileError {
                        kind: CompileErrorKind::InvalidNumber,
                        line: t.line,
                    };
                    proof {
                        assert forall|fuel: nat| fuel >= ts@.len() - i + 2 implies spec_parse_prec(
                            src@,
                            tsv(ts@),
                            i as int,
                            em0,
                            min_prec as int,
                            fuel,
                        ) == Some(Err::<(ChunkView, int), CompileError>(e)) by {
                            assert(bits_of_dec(src@.subrange(t@.start, t@.start + t@.len))
                                is None);
                        }
                    }
                    return Err(e);
                },
            };
            if chunk.constants_len() >= 256 {
                let e = CompileError { kind: CompileErrorKind::TooManyConstants, line: t.line };
                proof {
                    assert forall|fuel: nat| fuel >= ts@.len() - i + 2 implies spec_parse_prec(
                        src@,
                        tsv(ts@),
                        i as int,
                        em0,
                        min_prec as int,
                        fuel,
                    ) == Some(Err::<(ChunkView, int), CompileError>(e)) by {
                        assert(bits_of_dec(src@.subrange(t@.start, t@.start + t@.len)) == Some(
                            bits,
                        ));
                    }
                }
                return Err(e);
            }
            let idx = chunk.add_constant(Value::Number(bits));
            chunk.write(OP_CONSTANT, t.line);
            chunk.write(idx as u8, t.line);
            let ghost em1 = chunk@;
            proof {
                assert(emit_constant(em0, Value::Number(bits), t@.line) is Ok);
                assert(emit_constant(em0, Value::Number(bits), t@.line)->Ok_0 =~= em1);
            }
            let r2 = parse_infix(src, ts, i + 1, min_prec, chunk);
            match r2 {
                Ok(j) => {
                    proof {
                        assert forall|fuel: nat| fuel >= ts@.len() - i + 2 implies spec_parse_prec(
                            src@,
                            tsv(ts@),
                            i as int,
                            em0,
                            min_prec as int,
                            fuel,
                        ) == Some(Ok::<(ChunkView, int), CompileError>((chunk@, j as int))) by {
                            assert(bits_of_dec(src@.subrange(t@.start, t@.start + t@.len))
                                == Some(bits));
                            assert(spec_parse_infix(
                                src@,
                                tsv(ts@),
                                i + 1,
                                em1,
                                min_prec as int,
                                (fuel - 1) as nat,
                            ) == Some(Ok::<(ChunkView, int), CompileError>((chunk@, j as int))));
                        }
                    }
                    Ok(j)
                },
                Err(e) => {
                    proof {
                        assert forall|fuel: nat| fuel >= ts@.len() - i + 2 implies spec_parse_prec(
                            src@,
                            tsv(ts@),
                            i as int,
                            em0,
                            min_prec as int,
                            fuel,
                        ) == Some(Err::<(ChunkView, int), CompileError>(e)) by {
                            assert(bits_of_dec(src@.subrange(t@.start, t@.start + t@.len))
                                == Some(bits));
                            assert(spec_parse_infix(
                                src@,
                                tsv(ts@),
                                i + 1,
                                em1,
                                min_prec as int,
                                (fuel - 1) as nat,
                            ) == Some(Err::<(ChunkView, int), CompileError>(e)));
                        }
                    }
                    Err(e)
                },
            }
        },
        TokenKind::LeftParen => {
            proof {
                assert(i as int != ts@.len() - 1);
            }
            let r1 = parse_prec(src, ts, i + 1, PREC_TERM, chunk);
            let j = match r1 {
                Ok(j) => j,
                Err(e) => {
                    proof {
                        assert forall|fuel: nat| fuel >= ts@.len() - i + 2 implies spec_parse_prec(
                            src@,
                            tsv(ts@),
                            i as int,
                            em0,
                            min_prec as int,
                            fuel,
                        ) == Some(Err::<(ChunkView, int), CompileError>(e)) by {
                            assert(spec_parse_prec(
                                src@,
                                tsv(ts@),
                                i + 1,
                                em0,
                                PREC_TERM as int,
                                (fuel - 1) as nat,
                            ) == Some(Err::<(ChunkView, int), CompileError>(e)));
                        }
                    }
                    return Err(e);
                },
            };
            let ghost em1 = chunk@;
            let tj = ts[j];
            proof {
                assert(tsv(ts@)[j as int] == ts@[j as int]@);
            }
            if tj.kind == TokenKind::RightParen {
                proof {
                    assert(j as int != ts@.len() - 1);
                }
                let r2 = parse_infix(src, ts, j + 1, min_prec, chunk);
                match r2 {
                    Ok(j2) => {
                        proof {
                            assert forall|fuel: nat|
                                fuel >= ts@.len() - i + 2 implies spec_parse_prec(
                                src@,
                                tsv(ts@),
                                i as int,
                                em0,
                                min_prec as int,
                                fuel,
                            ) == Some(
                                Ok::<(ChunkView, int), CompileError>((chunk@, j2 as int)),
                            ) by {
                                assert(spec_parse_prec(
                                    src@,
                                    tsv(ts@),
                                    i + 1,
                                    em0,
                                    PREC_TERM as int,
                                    (fuel - 1) as nat,
                                ) == Some(Ok::<(ChunkView, int), CompileError>((em1, j as int))));
                                assert(spec_parse_infix(
                                    src@,
                                    tsv(ts@),
                                    j + 1,
                                    em1,
                                    min_prec as int,
                                    (fuel - 1) as nat,
                                ) == Some(
                                    Ok::<(ChunkView, int), CompileError>((chunk@, j2 as int)),
                                ));
                            }
                        }
                        Ok(j2)
                    },
                    Err(e) => {
                        proof {
                            assert forall|fuel: nat|
                                fuel >= ts@.len() - i + 2 implies spec_parse_prec(
                                src@,
                                tsv(ts@),
                                i as int,
                                em0,
                                min_prec as int,
                                fuel,
                            ) == Some(Err::<(ChunkView, int), CompileError>(e)) by {
                                assert(spec_parse_prec(
                                    src@,
                                    tsv(ts@),
                                    i + 1,
                                    em0,
                                    PREC_TERM as int,
                                    (fuel - 1) as nat,
                                ) == Some(Ok::<(ChunkView, int), CompileError>((em1, j as int))));
                                assert(spec_parse_infix(
                                    src@,
                                    tsv(ts@),
                                    j + 1,
                                    em1,
                                    min_prec as int,
                                    (fuel - 1) as nat,
                                ) == Some(Err::<(ChunkView, int), CompileError>(e)));
                            }
                        }
                        Err(e)
                    },
                }
            } else {
                let e = CompileError { kind: CompileErrorKind::ExpectRightParen, line: tj.line };
                proof {
                    assert forall|fuel: nat| fuel >= ts@.len() - i + 2 implies spec_parse_prec(
                        src@,
                        tsv(ts@),
                        i as int,
                        em0,
                        min_prec as int,
                        fuel,
                    ) == Some(Err::<(ChunkView, int), CompileError>(e)) by {
                        assert(spec_parse_prec(
                            src@,
                            tsv(ts@),
                            i + 1,
                            em0,
                            PREC_TERM as int,
                            (fuel - 1) as nat,
                        ) == Some(Ok::<(ChunkView, int), CompileError>((em1, j as int))));
                    }
                }
                Err(e)
            }
        },
        TokenKind::Minus => {
            proof {
                assert(i as int != ts@.len() - 1);
            }
            let r1 = parse_prec(src, ts, i + 1, PREC_UNARY, chunk);
            let j = match r1 {
                Ok(j) => j,
                Err(e) => {
                    proof {
                        assert forall|fuel: nat| fuel >= ts@.len() - i + 2 implies spec_parse_prec(
                            src@,
                            tsv(ts@),
                            i as int,
                            em0,
                            min_prec as int,
                            fuel,
                        ) == Some(Err::<(ChunkView, int), CompileError>(e)) by {
                            assert(spec_parse_prec(
                                src@,
                                tsv(ts@),
                                i + 1,
                                em0,
                                PREC_UNARY as int,
                                (fuel - 1) as nat,
                            ) == Some(Err::<(ChunkView, int), CompileError>(e)));
                        }
                    }
                    return Err(e);
                },
            };
            let ghost em1 = chunk@;
            chunk.write(OP_NEGATE, t.line);
            let ghost em2 = chunk@;
            proof {
                assert(em2 =~= emit_byte(em1, OP_NEGATE, t@.line));
            }
            let r2 = parse_infix(src, ts, j, min_prec, chunk);
            match r2 {
                Ok(j2) => {
                    proof {
                        assert forall|fuel: nat| fuel >= ts@.len() - i + 2 implies spec_parse_prec(
                            src@,
                            tsv(ts@),
                            i as int,
                            em0,
                            min_prec as int,
                            fuel,
                        ) == Some(Ok::<(ChunkView, int), CompileError>((chunk@, j2 as int))) by {
                            assert(spec_parse_prec(
                                src@,
                                tsv(ts@),
                                i + 1,
                                em0,
                                PREC_UNARY as int,
                                (fuel - 1) as nat,
                            ) == Some(Ok::<(ChunkView, int), CompileError>((em1, j as int))));
                            assert(spec_parse_infix(
                                src@,
                                tsv(ts@),
                                j as int,
                                em2,
                                min_prec as int,
                                (fuel - 1) as nat,
                            ) == Some(Ok::<(ChunkView, int), CompileError>((chunk@, j2 as int))));
                        }
                    }
                    Ok(j2)
                },
                Err(e) => {
                    proof {
                        assert forall|fuel: nat| fuel >= ts@.len() - i + 2 implies spec_parse_prec(
                            src@,
                            tsv(ts@),
                            i as int,
                            em0,
                            min_prec as int,
                            fuel,
                        ) == Some(Err::<(ChunkView, int), CompileError>(e)) by {
                            assert(spec_parse_prec(
                                src@,
                                tsv(ts@),
                                i + 1,
                                em0,
                                PREC_UNARY as int,
                                (fuel - 1) as nat,
                            ) == Some(Ok::<(ChunkView, int), CompileError>((em1, j as int))));
                            assert(spec_parse_infix(
                                src@,
                                tsv(ts@),
                                j as int,
                                em2,
                                min_prec as int,
                                (fuel - 1) as nat,
                            ) == Some(Err::<(ChunkView, int), CompileError>(e)));
                        }
                    }
                    Err(e)
                },
            }
        },
        TokenKind::Error => {
            let e = CompileError { kind: CompileErrorKind::UnexpectedCharacter, line: t.line };
            Err(e)
        },
        _ => {
            let e = CompileError { kind: CompileErrorKind::ExpectExpression, line: t.line };
            Err(e)
        },
    }
}

/// The infix half of the parser: consumes binary operators binding at
/// least as tightly as `min_prec`, with their right operands, emitting
/// each operator after its operand; stops at the first token that is no
/// such operator. Exactly `spec_parse_infix` on the same state.
fn parse_infix(src: &[u8], ts: &Vec<Token>, i: usize, min_prec: u8, chunk: &mut Chunk) -> (r:
    Result<usize, CompileError>)
    requires
        tokens_ok(ts@, src@.len() as int),
        i < ts@.len(),
    ensures
        match r {
            Ok(j) => {
                &&& i <= j < ts@.len()
                &&& (old(chunk)@.aligned() ==> final(chunk)@.aligned())
                &&& (forall|fuel: nat|
                    fuel >= ts@.len() - i + 2 ==> spec_parse_infix(
                        src@,
                        tsv(ts@),
                        i as int,
                        old(chunk)@,
                        min_prec as int,
                        fuel,
                    ) == Some(Ok::<(ChunkView, int), CompileError>((final(chunk)@, j as int))))
            },
            Err(e) => forall|fuel: nat|
                fuel >= ts@.len() - i + 2 ==> spec_parse_infix(
                    src@,
                    tsv(ts@),
                    i as int,
                    old(chunk)@,
                    min_prec as int,
                    fuel,
                ) == Some(Err::<(ChunkView, int), CompileError>(e)),
        },
    decreases ts@.len() - i,
{
    let n = ts.len();
    let ghost em0 = chunk@;
    let t = ts[i];
    proof {
        assert(n == ts@.len());
        assert(tsv(ts@)[i as int] == ts@[i as int]@);
    }
    let p = prec_of(t.kind);
    if p == 0 || p < min_prec {
        return Ok(i);
    }
    proof {
        assert(t.kind != TokenKind::Eof);
        assert(i as int != ts@.len() - 1);
    }
    let r1 = parse_prec(src, ts, i + 1, p + 1, chunk);
    let j = match r1 {
        Ok(j) => j,
        Err(e) => {
            proof {
                assert forall|fuel: nat| fuel >= ts@.len() - i + 2 implies spec_parse_infix(
                    src@,
                    tsv(ts@),
                    i as int,
                    em0,
                    min_prec as int,
                    fuel,
                ) == Some(Err::<(ChunkView, int), CompileError>(e)) by {
                    assert(spec_parse_prec(
                        src@,
                        tsv(ts@),
                        i + 1,
                        em0,
                        infix_prec(t.kind) + 1,
                        (fuel - 1) as nat,
                    ) == Some(Err::<(ChunkView, int), CompileError>(e)));
                }
            }
            return Err(e);
        },
    };
    let ghost em1 = chunk@;
    let op = opcode_of(t.kind);
    chunk.write(op, t.line);
    let ghost em2 = chunk@;
    proof {
        assert(em2 =~= emit_byte(em1, binop_opcode(t.kind), t@.line));
    }
    let r2 = parse_infix(src, ts, j, min_prec, chunk);
    match r2 {
        Ok(j2) => {
            proof {
                assert forall|fuel: nat| fuel >= ts@.len() - i + 2 implies spec_parse_infix(
                    src@,
                    tsv(ts@),
                    i as int,
                    em0,
                    min_prec as int,
                    fuel,
                ) == Some(Ok::<(ChunkView, int), CompileError>((chunk@, j2 as int))) by {
                    assert(spec_parse_prec(
                        src@,
                        tsv(ts@),
                        i + 1,
                        em0,
                        infix_prec(t.kind) + 1,
                        (fuel - 1) as nat,
                    ) == Some(Ok::<(ChunkView, int), CompileError>((em1, j as int))));
                    assert(spec_parse_infix(
                        src@,
                        tsv(ts@),
                        j as int,
                        em2,
                        min_prec as int,
                        (fuel - 1) as nat,
                    ) == Some(Ok::<(ChunkView, int), CompileError>((chunk@, j2 as int))));
                }
            }
            Ok(j2)
        },
        Err(e) => {
            proof {
                assert forall|fuel: nat| fuel >= ts@.len() - i + 2 implies spec_parse_infix(
                    src@,
                    tsv(ts@),
                    i as int,
                    em0,
                    min_prec as int,
                    fuel,
                ) == Some(Err::<(ChunkView, int), CompileError>(e)) by {
                    assert(spec_parse_prec(
                        src@,
                        tsv(ts@),
                        i + 1,
                        em0,
                        infix_prec(t.kind) + 1,
                        (fuel - 1) as nat,
                    ) == Some(Ok::<(ChunkView, int), CompileError>((em1, j as int))));
                    assert(spec_parse_infix(
                        src@,
                        tsv(ts@),
                        j as int,
                        em2,
                        min_prec as int,
                        (fuel - 1) as nat,
                    ) == Some(Err::<(ChunkView, int), CompileError>(e)));
                }
            }
            Err(e)
        },
    }
}

/// Compiles a source text to a chunk: scans it, parses one expression
/// with full code generation, requires the end of the input right after,
/// and closes the code with RETURN. Returns `Ok` exactly where
/// `spec_compile` does, with exactly the chunk it describes (so compiling
/// the same text twice gives equal chunks), and otherwise the diagnostic
/// `spec_compile` describes, whose line is the line of the construct at
/// fault. A chunk is only ever returned whole; a failed compilation
/// yields no chunk at all.
pub fn compile(src: &[u8]) -> (r: Result<Chunk, CompileError>)
    requires
        src@.len() < usize::MAX,
    ensures
        match r {
            Ok(c) => spec_compile(src@) == Ok::<ChunkView, CompileError>(c@) && c@.aligned(),
            Err(e) => spec_compile(src@) == Err::<ChunkView, CompileError>(e),
        },
{
    let ts = scan(src);
    proof {
        assert(tsv(ts@) =~= spec_tokens(src@));
    }
    let mut chunk = Chunk::new();
    let r1 = parse_prec(src, &ts, 0, PREC_TERM, &mut chunk);
    match r1 {
        Err(e) => {
            proof {
                assert(spec_parse_prec(
                    src@,
                    tsv(ts@),
                    0,
                    empty_emission(),
                    PREC_TERM as int,
                    parse_fuel(tsv(ts@)),
                ) == Some(Err::<(ChunkView, int), CompileError>(e)));
            }
            Err(e)
        },
        Ok(j) => {
            let ghost em1 = chunk@;
            proof {
                assert(spec_parse_prec(
                    src@,
                    tsv(ts@),
                    0,
                    empty_emission(),
                    PREC_TERM as int,
                    parse_fuel(tsv(ts@)),
                ) == Some(Ok::<(ChunkView, int), CompileError>((em1, j as int))));
                assert(tsv(ts@)[j as int] == ts@[j as int]@);
            }
            let tj = ts[j];
            if tj.kind == TokenKind::Eof {
                chunk.write(OP_RETURN, tj.line);
                proof {
                    assert(chunk@ =~= emit_byte(em1, OP_RETURN, tj@.line));
                }
                Ok(chunk)
            } else {
                Err(CompileError { kind: CompileErrorKind::ExpectEnd, line: tj.line })
            }
        },
    }
}

} // verus!

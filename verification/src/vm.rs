use vstd::prelude::*;

use crate::chunk::{Chunk, ChunkView, OP_ADD, OP_CONSTANT, OP_DIVIDE, OP_MULTIPLY, OP_NEGATE,
    OP_RETURN, OP_SUBTRACT};
use crate::numeric::{add_bits, div_bits, mul_bits, neg_bits, num_add, num_div, num_mul, num_neg,
    num_sub, sub_bits};
use crate::value::Value;

verus! {

/// The kind of a runtime fault.
#[derive(Clone, Copy, PartialEq, Eq, Structural, Debug)]
pub enum RuntimeErrorKind {
    /// An arithmetic instruction met an operand that is not a number.
    TypeMismatch,
    /// An instruction asked for more operands than the stack holds.
    StackUnderflow,
    /// A code byte in opcode position is no known opcode.
    UnknownOpcode,
    /// A CONSTANT instruction is truncated or its operand does not index
    /// the constant pool.
    InvalidConstant,
    /// Execution ran past the end of the code without meeting RETURN.
    MissingReturn,
}

/// A runtime fault: its kind and the source line of the faulting
/// instruction, taken from the chunk's line map.
#[derive(Clone, Copy, PartialEq, Eq, Structural, Debug)]
pub struct RuntimeError {
    pub kind: RuntimeErrorKind,
    pub line: usize,
}

impl RuntimeError {
    /// A human-readable description of the fault kind.
    pub fn message(&self) -> (m: String)
        ensures
            m@ == match self.kind {
                RuntimeErrorKind::TypeMismatch => "operand must be a number"@,
                RuntimeErrorKind::StackUnderflow => "stack underflow"@,
                RuntimeErrorKind::UnknownOpcode => "unknown opcode"@,
                RuntimeErrorKind::InvalidConstant => "invalid constant operand"@,
                RuntimeErrorKind::MissingReturn => "execution ran past end of code"@,
            },
    {
        match self.kind {
            RuntimeErrorKind::TypeMismatch => String::from_str("operand must be a number"),
            RuntimeErrorKind::StackUnderflow => String::from_str("stack underflow"),
            RuntimeErrorKind::UnknownOpcode => String::from_str("unknown opcode"),
            RuntimeErrorKind::InvalidConstant => String::from_str("invalid constant operand"),
            RuntimeErrorKind::MissingReturn => String::from_str("execution ran past end of code"),
        }
    }
}

/// The line reported when execution runs past the end of the code: the
/// line of the last code byte, or 0 for an empty chunk.
pub open spec fn end_line(c: ChunkView) -> usize {
    if c.lines.len() == 0 {
        0
    } else {
        c.lines[c.lines.len() - 1]
    }
}

/// The result bit pattern of the binary arithmetic instruction `op` on
/// left operand `a` and right operand `b` (both double bit patterns).
pub open spec fn binop_bits(op: u8, a: u64, b: u64) -> u64 {
    if op == OP_ADD {
        add_bits(a, b)
    } else if op == OP_SUBTRACT {
        sub_bits(a, b)
    } else if op == OP_MULTIPLY {
        mul_bits(a, b)
    } else {
        div_bits(a, b)
    }
}

/// True of the four binary arithmetic opcodes.
pub open spec fn is_binary_op(op: u8) -> bool {
    op == OP_ADD || op == OP_SUBTRACT || op == OP_MULTIPLY || op == OP_DIVIDE
}

/// The meaning of executing chunk `c` from instruction offset `ip` with
/// operand stack `stack` (top of stack last): the final stack at a normal
/// RETURN halt, or the first runtime fault. This is the reference the
/// virtual machine is verified against, one instruction per unfolding:
/// CONSTANT pushes the pool value named by its operand byte; the binary
/// instructions pop the right operand, then the left, and push the result
/// of `left op right`; NEGATE pops one number and pushes its negation;
/// RETURN halts with the stack as it stands. Non-number operands fault
/// with `TypeMismatch`, a short stack with `StackUnderflow`, each at the
/// line the chunk's line map gives for the faulting instruction.
pub open spec fn spec_run(c: ChunkView, ip: int, stack: Seq<Value>) -> Result<
    Seq<Value>,
    RuntimeError,
>
    decreases c.code.len() - ip,
{
    if ip < 0 || ip >= c.code.len() {
        Err(RuntimeError { kind: RuntimeErrorKind::MissingReturn, line: end_line(c) })
    } else {
        let op = c.code[ip];
        let line = c.lines[ip];
        if op == OP_RETURN {
            Ok(stack)
        } else if op == OP_CONSTANT {
            if ip + 1 >= c.code.len() {
                Err(RuntimeError { kind: RuntimeErrorKind::InvalidConstant, line })
            } else if c.code[ip + 1] >= c.constants.len() {
                Err(RuntimeError { kind: RuntimeErrorKind::InvalidConstant, line })
            } else {
                spec_run(c, ip + 2, stack.push(c.constants[c.code[ip + 1] as int]))
            }
        } else if op == OP_NEGATE {
            if stack.len() == 0 {
                Err(RuntimeError { kind: RuntimeErrorKind::StackUnderflow, line })
            } else if !stack.last().is_number() {
                Err(RuntimeError { kind: RuntimeErrorKind::TypeMismatch, line })
            } else {
                spec_run(
                    c,
                    ip + 1,
                    stack.drop_last().push(Value::Number(neg_bits(stack.last().as_bits()))),
                )
            }
        } else if is_binary_op(op) {
            if stack.len() < 2 {
                Err(RuntimeError { kind: RuntimeErrorKind::StackUnderflow, line })
            } else if !stack[stack.len() - 2].is_number() || !stack.last().is_number() {
                Err(RuntimeError { kind: RuntimeErrorKind::TypeMismatch, line })
            } else {
                spec_run(
                    c,
                    ip + 1,
                    stack.drop_last().drop_last().push(
                        Value::Number(
                            binop_bits(
                                op,
                                stack[stack.len() - 2].as_bits(),
                                stack.last().as_bits(),
                            ),
                        ),
                    ),
                )
            }
        } else {
            Err(RuntimeError { kind: RuntimeErrorKind::UnknownOpcode, line })
        }
    }
}

/// The mathematical content of a `VM`: the chunk it executes, its
/// instruction pointer, and its operand stack.
pub struct VmView {
    pub chunk: ChunkView,
    pub ip: int,
    pub stack: Seq<Value>,
}

/// The virtual machine: it owns the chunk it executes, an instruction
/// pointer into the chunk's code, and the operand stack. One instance
/// serves one execution.
pub struct Vm {
    chunk: Chunk,
    ip: usize,
    stack: Vec<Value>,
}

impl View for Vm {
    type V = VmView;

    closed spec fn view(&self) -> VmView {
        VmView { chunk: self.chunk@, ip: self.ip as int, stack: self.stack@ }
    }
}

impl Vm {
    /// A fresh machine poised at the start of `chunk` with an empty stack.
    pub fn new(chunk: Chunk) -> (vm: Vm)
        requires
            chunk@.aligned(),
        ensures
            vm@.chunk == chunk@,
            vm@.ip == 0,
            vm@.stack == Seq::<Value>::empty(),
            vm@.chunk.aligned(),
    {
        Vm { chunk, ip: 0, stack: Vec::new() }
    }

    /// The number of values on the operand stack.
    pub fn stack_len(&self) -> (n: usize)
        ensures
            n == self@.stack.len(),
    {
        self.stack.len()
    }

    /// The value at stack slot `i`, slot 0 being the bottom.
    pub fn stack_at(&self, i: usize) -> (v: Value)
        requires
            i < self@.stack.len(),
        ensures
            v == self@.stack[i as int],
    {
        self.stack[i]
    }

    /// The top of the operand stack, if any.
    pub fn top(&self) -> (v: Option<Value>)
        ensures
            match v {
                Some(x) => self@.stack.len() > 0 && x == self@.stack.last(),
                None => self@.stack.len() == 0,
            },
    {
        if self.stack.len() == 0 {
            None
        } else {
            Some(self.stack[self.stack.len() - 1])
        }
    }

    /// Fetch-decode-execute until RETURN or the first fault. The outcome
    /// is exactly what `spec_run` gives for the machine's starting state:
    /// on `Ok` the machine halted at a RETURN and its stack is the final
    /// stack `spec_run` describes; on `Err` the fault kind and line are the
    /// ones `spec_run` describes. The chunk itself never changes.
    pub fn run(&mut self) -> (r: Result<(), RuntimeError>)
        requires
            old(self)@.chunk.aligned(),
            0 <= old(self)@.ip <= old(self)@.chunk.code.len(),
        ensures
            final(self)@.chunk == old(self)@.chunk,
            match r {
                Ok(()) => spec_run(old(self)@.chunk, old(self)@.ip, old(self)@.stack)
                    == Ok::<Seq<Value>, RuntimeError>(final(self)@.stack),
                Err(e) => spec_run(old(self)@.chunk, old(self)@.ip, old(self)@.stack)
                    == Err::<Seq<Value>, RuntimeError>(e),
            },
    {
        loop
            invariant
                self@.chunk == old(self)@.chunk,
                self@.chunk.aligned(),
                0 <= self@.ip <= self@.chunk.code.len(),
                spec_run(self@.chunk, self@.ip, self@.stack) == spec_run(
                    old(self)@.chunk,
                    old(self)@.ip,
                    old(self)@.stack,
                ),
            decreases self@.chunk.code.len() - self@.ip,
        {
            let ghost st_iter = self@.stack;
            let ip = self.ip;
            let n = self.chunk.code_len();
            if ip >= n {
                let line: usize = if n == 0 {
                    0
                } else {
                    self.chunk.line_at(n - 1)
                };
                return Err(RuntimeError { kind: RuntimeErrorKind::MissingReturn, line });
            }
            let op = self.chunk.read(ip);
            let line = self.chunk.line_at(ip);
            if op == OP_RETURN {
                return Ok(());
            } else if op == OP_CONSTANT {
                if ip + 1 >= n {
                    return Err(RuntimeError { kind: RuntimeErrorKind::InvalidConstant, line });
                }
                let idx = self.chunk.read(ip + 1);
                if idx as usize >= self.chunk.constants_len() {
                    return Err(RuntimeError { kind: RuntimeErrorKind::InvalidConstant, line });
                }
                let v = self.chunk.constant_at(idx as usize);
                self.stack.push(v);
                self.ip = ip + 2;
            } else if op == OP_NEGATE {
                if self.stack.len() == 0 {
                    return Err(RuntimeError { kind: RuntimeErrorKind::StackUnderflow, line });
                }
                let v = self.stack.pop().unwrap();
                match v {
                    Value::Number(b) => {
                        let r = num_neg(b);
                        self.stack.push(Value::Number(r));
                        self.ip = ip + 1;
                        proof {
                            assert(self@.stack =~= st_iter.drop_last().push(
                                Value::Number(neg_bits(st_iter.last().as_bits()))));
                        }
                    },
                    _ => {
                        return Err(RuntimeError { kind: RuntimeErrorKind::TypeMismatch, line });
                    },
                }
            } else if op == OP_ADD || op == OP_SUBTRACT || op == OP_MULTIPLY || op == OP_DIVIDE {
                if self.stack.len() < 2 {
                    return Err(RuntimeError { kind: RuntimeErrorKind::StackUnderflow, line });
                }
                let rhs = self.stack.pop().unwrap();
                let lhs = self.stack.pop().unwrap();
                match (lhs, rhs) {
                    (Value::Number(a), Value::Number(b)) => {
                        let r = if op == OP_ADD {
                            num_add(a, b)
                        } else if op == OP_SUBTRACT {
                            num_sub(a, b)
                        } else if op == OP_MULTIPLY {
                            num_mul(a, b)
                        } else {
                            num_div(a, b)
                        };
                        self.stack.push(Value::Number(r));
                        self.ip = ip + 1;
                        proof {
                            assert(self@.stack =~= st_iter.drop_last().drop_last().push(
                                Value::Number(
                                    binop_bits(
                                        op,
                                        st_iter[st_iter.len() - 2].as_bits(),
                                        st_iter.last().as_bits(),
                                    ),
                                )));
                        }
                    },
                    _ => {
                        return Err(RuntimeError { kind: RuntimeErrorKind::TypeMismatch, line });
                    },
                }
            } else {
                return Err(RuntimeError { kind: RuntimeErrorKind::UnknownOpcode, line });
            }
        }
    }
}

} // verus!

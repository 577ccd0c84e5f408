use vstd::prelude::*;

use crate::value::Value;

verus! {

/// Opcode byte for pushing a constant; it is followed by one operand byte,
/// the index of the constant in the pool.
pub const OP_CONSTANT: u8 = 0;
/// Opcode byte for addition.
pub const OP_ADD: u8 = 1;
/// Opcode byte for subtraction.
pub const OP_SUBTRACT: u8 = 2;
/// Opcode byte for multiplication.
pub const OP_MULTIPLY: u8 = 3;
/// Opcode byte for division.
pub const OP_DIVIDE: u8 = 4;
/// Opcode byte for arithmetic negation.
pub const OP_NEGATE: u8 = 5;
/// Opcode byte that halts execution normally.
pub const OP_RETURN: u8 = 6;

/// The mathematical content of a `Chunk`: the emitted code bytes, the
/// source line of each code byte, and the constant pool, all as sequences.
#[verifier::ext_equal]
pub struct ChunkView {
    pub code: Seq<u8>,
    pub lines: Seq<usize>,
    pub constants: Seq<Value>,
}

impl ChunkView {
    /// The chunk's structural invariant: the line map runs in parallel with
    /// the code, one entry per code byte.
    pub open spec fn aligned(self) -> bool {
        self.lines.len() == self.code.len()
    }
}

/// An append-only container of compiled bytecode: an ordered byte sequence,
/// a parallel sequence giving each byte's source line, and an ordered
/// constant pool. The compiler only appends; the virtual machine only reads.
#[derive(Debug)]
pub struct Chunk {
    code: Vec<u8>,
    lines: Vec<usize>,
    constants: Vec<Value>,
}

impl View for Chunk {
    type V = ChunkView;

    closed spec fn view(&self) -> ChunkView {
        ChunkView {
            code: self.code@,
            lines: self.lines@,
            constants: self.constants@,
        }
    }
}

impl Chunk {
    /// A fresh, empty chunk.
    pub fn new() -> (c: Chunk)
        ensures
            c@.code == Seq::<u8>::empty(),
            c@.lines == Seq::<usize>::empty(),
            c@.constants == Seq::<Value>::empty(),
    {
        Chunk { code: Vec::new(), lines: Vec::new(), constants: Vec::new() }
    }

    /// Appends one byte (an opcode or an immediate operand) together with
    /// the source line it was emitted for. Nothing already written moves.
    pub fn write(&mut self, byte: u8, line: usize)
        ensures
            final(self)@.code == old(self)@.code.push(byte),
            final(self)@.lines == old(self)@.lines.push(line),
            final(self)@.constants == old(self)@.constants,
    {
        self.code.push(byte);
        self.lines.push(line);
    }

    /// Appends a value to the constant pool and returns its index. Indices
    /// are assigned in pool order, never renumbered: the result is exactly
    /// the number of constants added before this one.
    pub fn add_constant(&mut self, v: Value) -> (i: usize)
        ensures
            i == old(self)@.constants.len(),
            final(self)@.constants == old(self)@.constants.push(v),
            final(self)@.code == old(self)@.code,
            final(self)@.lines == old(self)@.lines,
    {
        let i = self.constants.len();
        self.constants.push(v);
        i
    }

    /// The number of code bytes written so far.
    pub fn code_len(&self) -> (n: usize)
        ensures
            n == self@.code.len(),
    {
        self.code.len()
    }

    /// The number of line-map entries written so far; always equal to
    /// `code_len` for a chunk built through `write`.
    pub fn lines_len(&self) -> (n: usize)
        ensures
            n == self@.lines.len(),
    {
        self.lines.len()
    }

    /// The number of constants in the pool.
    pub fn constants_len(&self) -> (n: usize)
        ensures
            n == self@.constants.len(),
    {
        self.constants.len()
    }

    /// The code byte at `offset`.
    pub fn read(&self, offset: usize) -> (b: u8)
        requires
            offset < self@.code.len(),
        ensures
            b == self@.code[offset as int],
    {
        self.code[offset]
    }

    /// The source line recorded for the code byte at `offset`.
    pub fn line_at(&self, offset: usize) -> (l: usize)
        requires
            offset < self@.lines.len(),
        ensures
            l == self@.lines[offset as int],
    {
        self.lines[offset]
    }

    /// The constant stored at pool index `i`.
    pub fn constant_at(&self, i: usize) -> (v: Value)
        requires
            i < self@.constants.len(),
        ensures
            v == self@.constants[i as int],
    {
        self.constants[i]
    }
}

/// Law: the line map stays aligned with the code across any `write`. A
/// write appends one byte and one line, so a chunk whose two sequences had
/// equal length keeps them equal; since `new` starts both empty and
/// `add_constant` touches neither, every reachable chunk is aligned.
pub proof fn lemma_write_preserves_alignment(pre: ChunkView, post: ChunkView, byte: u8, line: usize)
    requires
        pre.aligned(),
        post.code == pre.code.push(byte),
        post.lines == pre.lines.push(line),
    ensures
        post.aligned(),
{
}

/// Law: constant-pool indices are stable. Adding one more constant leaves
/// every previously assigned index naming the value originally stored there.
pub proof fn lemma_add_constant_stable(pre: ChunkView, v: Value, i: int)
    requires
        0 <= i < pre.constants.len(),
    ensures
        pre.constants.push(v)[i] == pre.constants[i],
{
}

} // verus!

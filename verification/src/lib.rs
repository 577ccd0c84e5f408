use vstd::prelude::*;

pub mod chunk;
pub mod compiler;
pub mod numeric;
pub mod scanner;
pub mod semantics;
pub mod value;
pub mod vm;

use crate::chunk::ChunkView;
use crate::compiler::{compile, spec_compile, CompileError};
use crate::value::Value;
use crate::vm::{spec_run, RuntimeError, Vm};

verus! {

/// Why a source text failed to interpret: it did not compile, or its
/// compiled chunk faulted while running. A compile failure always
/// short-circuits: no chunk of a failed compilation is ever executed.
#[derive(Clone, Copy, PartialEq, Eq, Structural, Debug)]
pub enum InterpretError {
    Compile(CompileError),
    Runtime(RuntimeError),
}

/// Compiles a source text and, only on success, runs the chunk on a fresh
/// virtual machine. `Ok` exactly where the text compiles (per
/// `spec_compile`), in which case the chunk halts normally; otherwise the
/// one compile diagnostic. The `Runtime` variant never comes out of this
/// function: by `semantics::lemma_compile_correct`, code this compiler
/// emits cannot fault — it stays for machines fed hand-built chunks.
pub fn interpret(src: &[u8]) -> (r: Result<(), InterpretError>)
    requires
        src@.len() < usize::MAX,
    ensures
        match r {
            Ok(()) => spec_compile(src@) matches Ok(c) && spec_run(c, 0, Seq::empty()) is Ok,
            Err(InterpretError::Compile(e)) => spec_compile(src@) == Err::<
                ChunkView,
                CompileError,
            >(e),
            Err(InterpretError::Runtime(e)) => false,
        },
{
    let chunk = match compile(src) {
        Ok(c) => c,
        Err(e) => {
            return Err(InterpretError::Compile(e));
        },
    };
    let mut vm = Vm::new(chunk);
    match vm.run() {
        Ok(()) => Ok(()),
        Err(e) => {
            proof {
                crate::semantics::lemma_compile_correct(src@);
            }
            Err(InterpretError::Runtime(e))
        },
    }
}

/// Law: compilation has no hidden state. Two independent compilations of
/// one source text yield the same outcome — on success, chunks with equal
/// code, line maps and constant pools, whose independent executions from
/// fresh machines are the same; on failure, the same diagnostic.
pub proof fn lemma_compile_deterministic(
    src: Seq<u8>,
    r1: Result<ChunkView, CompileError>,
    r2: Result<ChunkView, CompileError>,
)
    requires
        r1 == spec_compile(src),
        r2 == spec_compile(src),
    ensures
        r1 == r2,
        r1 matches Ok(c1) ==> (r2 matches Ok(c2) && spec_run(c1, 0, Seq::empty()) == spec_run(
            c2,
            0,
            Seq::empty(),
        )),
{
}

} // verus!

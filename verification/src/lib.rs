use vstd::prelude::*;

pub mod bitset;
pub mod bytecodes;
pub mod layout;
pub mod program;
pub mod lexer;
pub mod termination;
pub mod text;
pub mod tokens;
pub mod unification;
pub mod codegen;
pub mod column;
pub mod diagnostics;
pub mod disassembler;
pub mod environment;
pub mod errors;
pub mod expressions;
pub mod grammar;
pub mod inference;
pub mod typer;
pub mod emission;
pub mod generator;
pub mod compiler;
pub mod parser;
pub mod world;

verus! {


/// Identifier of an entity in a world.
pub type Entity = u32;

/// Identifier of a registered component kind.
pub type ComponentId = u32;

/// What compiling a program produced: its bytecode and, when asked for, its listing.
#[derive(Debug, Clone)]
pub struct CompilationMetadata {
    pub bytecode: Vec<u8>,
    pub bytecode_length: usize,
    pub disassembled_instructions: String,
}

/// Counters that running a program collects.
#[derive(Debug, Clone, Copy, PartialEq, Eq, Structural)]
pub struct ExecutionMetadata {
    pub instructions_executed: usize,
    pub jumps_performed: usize,
    pub bytes_read: usize,
    pub stack_allocations: usize,
    pub max_stack_height: usize,
}

/// What compiling and running a program produced besides its value.
#[derive(Debug, Clone)]
pub struct ProgramMetadata {
    pub compilation_metadata: CompilationMetadata,
    pub execution_metadata: ExecutionMetadata,
}

impl Default for CompilationMetadata {
    fn default() -> (r: Self)
        ensures
            r.bytecode@ == Seq::<u8>::empty(),
            r.bytecode_length == 0,
            r.disassembled_instructions@ == Seq::<char>::empty(),
    {
        CompilationMetadata {
            bytecode: Vec::new(),
            bytecode_length: 0,
            disassembled_instructions: String::new(),
        }
    }
}

impl Default for ExecutionMetadata {
    fn default() -> (r: Self)
        ensures
            r == (ExecutionMetadata {
                instructions_executed: 0,
                jumps_performed: 0,
                bytes_read: 0,
                stack_allocations: 0,
                max_stack_height: 0,
            }),
    {
        ExecutionMetadata {
            instructions_executed: 0,
            jumps_performed: 0,
            bytes_read: 0,
            stack_allocations: 0,
            max_stack_height: 0,
        }
    }
}

impl Default for ProgramMetadata {
    fn default() -> (r: Self)
        ensures
            r.compilation_metadata.bytecode@ == Seq::<u8>::empty(),
            r.compilation_metadata.bytecode_length == 0,
            r.compilation_metadata.disassembled_instructions@ == Seq::<char>::empty(),
            r.execution_metadata == (ExecutionMetadata {
                instructions_executed: 0,
                jumps_performed: 0,
                bytes_read: 0,
                stack_allocations: 0,
                max_stack_height: 0,
            }),
    {
        ProgramMetadata {
            compilation_metadata: CompilationMetadata::default(),
            execution_metadata: ExecutionMetadata::default(),
        }
    }
}

} // verus!

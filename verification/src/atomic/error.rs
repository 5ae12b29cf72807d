use vstd::prelude::*;

use crate::text::string_of;

verus! {

/// The `type` tag of every runtime error report.
pub const ATOMIC_RUNTIME_ERROR_TYPE: &'static str = "runtime_error";

/// A runtime error reported by the atomic game VM.
#[derive(Debug, Clone, PartialEq)]
pub struct AtomicRuntimeError {
    pub error_type: String,
    pub message: String,
    pub instruction: usize,
    pub source_line: u32,
}

impl AtomicRuntimeError {
    /// A runtime error at instruction `instruction_index`, source line `source_line`.
    pub fn new(message: String, instruction_index: usize, source_line: u32) -> (r: Self)
        ensures
            r.error_type@ == ATOMIC_RUNTIME_ERROR_TYPE@,
            r.message == message,
            r.instruction == instruction_index,
            r.source_line == source_line,
    {
        AtomicRuntimeError {
            error_type: string_of(ATOMIC_RUNTIME_ERROR_TYPE),
            message,
            instruction: instruction_index,
            source_line,
        }
    }
}

/// The states of the atomic game VM.
#[derive(Debug, Clone, Copy, PartialEq, Eq, Structural)]
pub enum AtomicVmState {
    Ready,
    Running,
    WaitingForChoice,
    WaitingForKey,
    Finished,
    Error,
}

} // verus!

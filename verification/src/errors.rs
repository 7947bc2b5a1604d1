use vstd::prelude::*;

verus! {

/// Everything that can stop a run: malformed input, entry resolution
/// failures, desynchronization between source and trace, and internal
/// consistency failures. Only a memory-shadow mismatch is softer than these;
/// it is reported as a warning event, not an error.
#[derive(Debug)]
pub enum RunError {
    /// The log does not match the grammar; reported with the character
    /// offset where parsing stopped and a short excerpt from there.
    Parse { offset: usize, excerpt: String },
    /// The requested entry procedure matches no block.
    EntryNotFound { requested: String },
    /// The requested entry suffix matches more than one block.
    EntryAmbiguous { candidates: Vec<String> },
    /// No entry was requested and none could be inferred from the trace.
    NoDefaultEntry,
    /// Neither the current block nor any enclosing frame carries a name.
    NoFunctionName,
    /// A block was left with no enclosing frame on the call stack.
    StackUnderflow,
    /// A call-type op without the callee argument it must carry.
    CallMissingArg { opcode: String },
    /// A symbol whose mangled region cannot be decoded.
    BadSymbol { symbol: String },
    /// The trace ended while skipping over a callee absent from the source.
    TraceEndedDuringSkip,
    /// The requested entry never appears as a traced function.
    EntryNotInTrace { entry: String },
    /// A trace event with an empty operand stack where a top is needed.
    EmptyStackEvent { index: usize },
    /// The source op and the trace op disagree in a way no call or branch
    /// explains; both sides are carried for diagnosis.
    Mismatch {
        src_func: String,
        src_opcode: String,
        src_arg: Option<String>,
        trace_func: String,
        trace_opcode: String,
        trace_arg: Option<String>,
    },
    /// The step allowance ran out before the run finished.
    OutOfFuel,
    /// Calls and branches nested beyond what positions can count.
    NestingTooDeep,
}

} // verus!

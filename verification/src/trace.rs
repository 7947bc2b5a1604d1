use vstd::prelude::*;

use crate::masm::Op;

verus! {

/// One recorded interpreter micro-step: the owning function's (possibly
/// mangled) symbol, the raw instruction text, the parsed operation, which
/// cycle of the instruction this is, and the operand stack at that point,
/// top first.
pub struct Trace {
    pub func: String,
    pub masm_op: String,
    pub op: Op,
    pub cycle: u64,
    pub total: u64,
    pub stack: Vec<u64>,
}

} // verus!

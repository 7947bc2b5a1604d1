use vstd::prelude::*;

use crate::demangle;
use crate::errors::RunError;
use crate::masm::{Block, Op};
use crate::memshadow::MemShadow;
use crate::src_mgr::{BlockType, SourceManager};
use crate::text;
use crate::trace::Trace;

verus! {

/// One logical event of the reconstructed trace, in emission order. The
/// renderer turns these into lines; their sequence and content, not their
/// layout, is what the engine promises.
pub enum Event {
    /// The resolved entry procedure, announced before anything runs.
    EntryAt { name: String },
    /// A source op matched against its trace event, with the operand stack
    /// recorded there.
    Instruction { opcode: String, arg: Option<String>, stack: Vec<u64>, indent: usize },
    /// A call-type op about to transfer control (no stack shown).
    CallOp { opcode: String, arg: Option<String>, indent: usize },
    /// Control entered a called procedure.
    EnterFunc { name: String },
    /// Control returned into this procedure.
    ReturnToFunc { name: String },
    /// The sentinel frame was popped: the entry procedure returned.
    ReturnedFromEntry,
    /// A call or branch arm that never appears in the trace.
    Skipping { indent: usize },
    /// A conditional was decided; when the false arm is taken the true arm
    /// is marked skipped.
    CondEnter { taken_true: bool, indent: usize },
    /// The true arm of a conditional ended (its false arm is skipped).
    TrueArmEnd { indent: usize },
    /// The false arm of a conditional ended.
    FalseArmEnd { indent: usize },
    /// A load disagreed with the recorded shadow value.
    MemWarning { addr: u64, expected: u64, found: u64 },
    /// The shadow words around a touched address.
    MemDump { base: u64, words: Vec<Option<u64>> },
    /// The input trace is exhausted.
    EndOfTrace,
}

/// How a run ends well: by the entry procedure returning, or by the trace
/// running out first.
pub enum RunEnd {
    EntryReturned,
    TraceEnded,
}

/// A per-run cache of demangled symbols, so that skip-scans over long traces
/// do not decode the same symbol again and again.
pub struct DemangleCache {
    pub entries: Vec<(String, String)>,
}

impl DemangleCache {
    /// Every cached pair really is a demangling.
    pub open spec fn wf(self) -> bool {
        forall|i: int|
            0 <= i < self.entries@.len() ==> demangle::demangle_spec(
                (#[trigger] self.entries@[i]).0@,
            ) == Some(self.entries@[i].1@)
    }

    pub fn new() -> (r: DemangleCache)
        ensures
            r.wf(),
    {
        DemangleCache { entries: Vec::new() }
    }

    /// The demangled form of `sym`, from the cache or computed and cached.
    pub fn demangled(&mut self, sym: &str) -> (r: Result<String, RunError>)
        requires
            old(self).wf(),
        ensures
            final(self).wf(),
            match r {
                Ok(d) => demangle::demangle_spec(sym@) == Some(d@),
                Err(e) => demangle::demangle_spec(sym@) is None && e is BadSymbol,
            },
    {
        let n = self.entries.len();
        let mut i: usize = 0;
        while i < n
            invariant
                self.wf(),
                n == self.entries@.len(),
                i <= n,
            decreases n - i,
        {
            if text::str_eq(self.entries[i].0.as_str(), sym) {
                return Ok(self.entries[i].1.clone());
            }
            i = i + 1;
        }
        match demangle::demangle(sym) {
            Some(d) => {
                let ghost pre = self.entries@;
                self.entries.push((String::from_str(sym), d.clone()));
                proof {
                    assert forall|j: int|
                        0 <= j < self.entries@.len() implies demangle::demangle_spec(
                        (#[trigger] self.entries@[j]).0@,
                    ) == Some(self.entries@[j].1@) by {
                        if j < pre.len() {
                            assert(self.entries@[j] == pre[j]);
                        }
                    }
                }
                Ok(d)
            },
            None => Err(RunError::BadSymbol { symbol: String::from_str(sym) }),
        }
    }
}

/// The number an op's literal argument writes in decimal, when it has one
/// and it fits.
pub open spec fn arg_value(op: Op) -> Option<u64> {
    match op {
        Op::Op { arg: Some(a), .. } => if a@.len() > 0 && text::all_dec_digits(a@)
            && text::dec_val(a@) <= u64::MAX as nat {
            Some(text::dec_val(a@) as u64)
        } else {
            None
        },
        _ => None,
    }
}

/// Whether the op is a plain op with this opcode.
pub open spec fn op_is(op: Op, name: Seq<char>) -> bool {
    op matches Op::Op { opcode, .. } && opcode@ == name
}

/// The address a load event touches: its literal argument when it parses,
/// else the top of the stack just before the op executed.
pub open spec fn load_target(cur: Trace, prior: Trace) -> Option<u64> {
    match arg_value(cur.op) {
        Some(v) => Some(v),
        None => if prior.stack@.len() > 0 {
            Some(prior.stack@[0])
        } else {
            None
        },
    }
}

/// The address and value a store event writes: with a literal argument, that
/// address and the prior top of stack; without one, the prior top two stack
/// values.
pub open spec fn store_target(cur: Trace, prior: Trace) -> Option<(u64, u64)> {
    match cur.op {
        Op::Op { arg: Some(_), .. } => match arg_value(cur.op) {
            Some(addr) => if prior.stack@.len() > 0 {
                Some((addr, prior.stack@[0]))
            } else {
                None
            },
            None => None,
        },
        Op::Op { arg: None, .. } => if prior.stack@.len() > 1 {
            Some((prior.stack@[0], prior.stack@[1]))
        } else {
            None
        },
        _ => None,
    }
}

/// No conditional op points outside the arena.
pub open spec fn arena_closed(m: Map<slotmap::DefaultKey, Block>) -> bool {
    forall|k: slotmap::DefaultKey, i: int|
        #![trigger m[k].ops@[i]]
        m.dom().contains(k) && 0 <= i < m[k].ops@.len() ==> match m[k].ops@[i] {
            Op::Conditional(t, f) => m.dom().contains(t) && m.dom().contains(f),
            Op::Op { .. } => true,
        }
}

/// How many branch-arm frames the stack holds.
pub open spec fn branch_frames(s: Seq<(BlockType, slotmap::DefaultKey, usize)>) -> nat
    decreases s.len(),
{
    if s.len() == 0 {
        0
    } else {
        (if s.last().0 is TrueBlock || s.last().0 is FalseBlock {
            1nat
        } else {
            0nat
        }) + branch_frames(s.drop_last())
    }
}

/// The alignment engine: the source position, the flat trace and a cursor
/// into it, the two-slot top-of-stack register, the pending-skip flag, the
/// pending memory dump, the memory shadow, the symbol cache, and the events
/// emitted so far.
pub struct Engine {
    pub srcs: SourceManager,
    pub trace: Vec<Trace>,
    pub trace_idx: usize,
    pub prior_top0: u64,
    pub prior_top1: u64,
    pub pending_trace_skip: bool,
    pub pending_print_mem: Option<u64>,
    pub mem: MemShadow,
    pub cache: DemangleCache,
    pub events: Vec<Event>,
}

impl Engine {
    /// The engine's running invariant: the arena is closed, every reachable
    /// position is inside its block (the pc may stand at most one past the
    /// end, where the next iteration pops exactly one frame), the stack
    /// bottoms out at the one sentinel frame, the indentation tracks the
    /// branch depth, and the cursor stays within the trace.
    pub open spec fn wf(self) -> bool {
        &&& arena_closed(self.srcs.srcs@)
        &&& self.srcs.srcs@.dom().contains(self.srcs.src_block_key)
        &&& self.srcs.pc <= self.srcs.cur_ops().len()
        &&& self.srcs.call_stack@.len() >= 1
        &&& self.srcs.call_stack@[0].0 is Start
        &&& forall|i: int|
            1 <= i < self.srcs.call_stack@.len() ==> !((#[trigger] self.srcs.call_stack@[i]).0
                is Start)
        &&& forall|i: int|
            1 <= i < self.srcs.call_stack@.len() ==> self.srcs.srcs@.dom().contains(
                (#[trigger] self.srcs.call_stack@[i]).1,
            ) && self.srcs.call_stack@[i].2 <= self.srcs.srcs@[self.srcs.call_stack@[i].1].ops@.len()
        &&& self.srcs.indent == 4 + 4 * branch_frames(self.srcs.call_stack@)
        &&& 4 + 4 * self.srcs.call_stack@.len() <= usize::MAX
        &&& self.trace_idx <= self.trace@.len()
        &&& self.cache.wf()
    }

    /// Feeds the memory shadow from the trace event under `idx`, exactly when
    /// it is the first cycle of a load or store and the event before it
    /// supplies the operands. Purely observational: at most the shadow and a
    /// warning event change; a malformed or operand-less event does nothing.
    pub fn perform_mem_io_at(&mut self, idx: usize)
        ensures
            *final(self) == (Engine { mem: final(self).mem, events: final(self).events, ..*old(self) }),
            ({
                let active = 0 < idx < old(self).trace@.len() && old(self).trace@[idx as int].cycle == 1;
                let unchanged = final(self).mem@ == old(self).mem@ && final(self).events == old(self).events;
                if !active {
                    unchanged
                } else {
                    let cur = old(self).trace@[idx as int];
                    let prior = old(self).trace@[idx - 1];
                    if op_is(cur.op, "mem_load"@) {
                        match load_target(cur, prior) {
                            Some(addr) => if cur.stack@.len() == 0 {
                                unchanged
                            } else {
                                let loaded = cur.stack@[0];
                                let m0 = old(self).mem@;
                                if !m0.dom().contains(addr) {
                                    final(self).mem@ == m0.insert(addr, loaded) && final(self).events == old(self).events
                                } else if m0[addr] == loaded {
                                    unchanged
                                } else {
                                    final(self).mem@ == old(self).mem@ && final(self).events@ == old(self).events@.push(
                                        Event::MemWarning {
                                            addr,
                                            expected: loaded,
                                            found: m0[addr],
                                        },
                                    )
                                }
                            },
                            None => unchanged,
                        }
                    } else if op_is(cur.op, "mem_store"@) {
                        match store_target(cur, prior) {
                            Some(av) => final(self).mem@ == old(self).mem@.insert(av.0, av.1)
                                && final(self).events == old(self).events,
                            None => unchanged,
                        }
                    } else {
                        unchanged
                    }
                }
            }),
    {
        if idx >= self.trace.len() || idx == 0 {
            return ;
        }
        let cycle = self.trace[idx].cycle;
        if cycle != 1 {
            return ;
        }
        proof {
            reveal_strlit("mem_load");
            reveal_strlit("mem_store");
        }
        let is_load: bool;
        let is_store: bool;
        match &self.trace[idx].op {
            Op::Op { opcode, .. } => {
                is_load = text::str_eq(opcode.as_str(), "mem_load");
                is_store = text::str_eq(opcode.as_str(), "mem_store");
            },
            Op::Conditional(..) => {
                is_load = false;
                is_store = false;
            },
        }
        if is_load {
            let addr_opt: Option<u64> = match &self.trace[idx].op {
                Op::Op { arg: Some(a), .. } => {
                    match text::parse_u64(a.as_str()) {
                        Some(v) => Some(v),
                        None => {
                            if self.trace[idx - 1].stack.len() > 0 {
                                Some(self.trace[idx - 1].stack[0])
                            } else {
                                None
                            }
                        },
                    }
                },
                _ => {
                    if self.trace[idx - 1].stack.len() > 0 {
                        Some(self.trace[idx - 1].stack[0])
                    } else {
                        None
                    }
                },
            };
            if let Some(addr) = addr_opt {
                if self.trace[idx].stack.len() > 0 {
                    let loaded = self.trace[idx].stack[0];
                    if let Some(found) = self.mem.observe_load(addr, loaded) {
                        self.events.push(
                            Event::MemWarning { addr, expected: loaded, found },
                        );
                    }
                }
            }
        } else if is_store {
            let pair: Option<(u64, u64)> = match &self.trace[idx].op {
                Op::Op { arg: Some(a), .. } => {
                    match text::parse_u64(a.as_str()) {
                        Some(addr) => {
                            if self.trace[idx - 1].stack.len() > 0 {
                                Some((addr, self.trace[idx - 1].stack[0]))
                            } else {
                                None
                            }
                        },
                        None => None,
                    }
                },
                _ => {
                    if self.trace[idx - 1].stack.len() > 1 {
                        Some((self.trace[idx - 1].stack[0], self.trace[idx - 1].stack[1]))
                    } else {
                        None
                    }
                },
            };
            if let Some((addr, val)) = pair {
                self.mem.store(addr, val);
            }
        }
    }
}

/// An element-wise copy of an operand stack.
fn copy_stack(v: &Vec<u64>) -> (r: Vec<u64>)
    ensures
        r@ == v@,
{
    let mut out: Vec<u64> = Vec::new();
    let mut i: usize = 0;
    while i < v.len()
        invariant
            i <= v@.len(),
            out@ == v@.take(i as int),
        decreases v@.len() - i,
    {
        out.push(v[i]);
        proof {
            assert(out@ =~= v@.take(i + 1));
        }
        i = i + 1;
    }
    proof {
        assert(v@.take(v@.len() as int) =~= v@);
    }
    out
}

/// A copy of an optional literal argument.
fn clone_opt_string(a: &Option<String>) -> (r: Option<String>)
    ensures
        r == *a,
{
    match a {
        Some(s) => Some(s.clone()),
        None => None,
    }
}

/// A stack holds at most as many branch frames as frames.
proof fn lemma_branch_frames_le(s: Seq<(BlockType, slotmap::DefaultKey, usize)>)
    ensures
        branch_frames(s) <= s.len(),
    decreases s.len(),
{
    if s.len() > 0 {
        lemma_branch_frames_le(s.drop_last());
    }
}

/// With the sentinel at the bottom, at least one frame is not a branch
/// frame.
proof fn lemma_branch_frames_lt(s: Seq<(BlockType, slotmap::DefaultKey, usize)>)
    requires
        s.len() >= 1,
        s[0].0 is Start,
    ensures
        branch_frames(s) <= s.len() - 1,
    decreases s.len(),
{
    if s.len() == 1 {
        assert(s.last() == s[0]);
    } else {
        assert(s.drop_last()[0] == s[0]);
        lemma_branch_frames_lt(s.drop_last());
    }
}

impl Engine {
    pub fn new(srcs: SourceManager, trace: Vec<Trace>) -> (r: Engine)
        ensures
            r.srcs == srcs,
            r.trace == trace,
            r.trace_idx == 0,
            r.prior_top0 == 0,
            r.prior_top1 == 0,
            !r.pending_trace_skip,
            r.pending_print_mem is None,
            r.mem@ == Map::<u64, u64>::empty(),
            r.cache.wf(),
            r.events@.len() == 0,
    {
        Engine {
            srcs,
            trace,
            trace_idx: 0,
            prior_top0: 0,
            prior_top1: 0,
            pending_trace_skip: false,
            pending_print_mem: None,
            mem: MemShadow::new(),
            cache: DemangleCache::new(),
            events: Vec::new(),
        }
    }

    /// The op count of the current block, read off to bound the position.
    fn cur_block_len(&self) -> (r: usize)
        requires
            self.srcs.srcs@.dom().contains(self.srcs.src_block_key),
        ensures
            r == self.srcs.cur_ops().len(),
    {
        self.srcs.srcs.get(self.srcs.src_block_key).len()
    }

    /// The four shadow words surrounding an address, for a memory dump.
    fn dump_words(&self, base: u64) -> (r: Vec<Option<u64>>)
        requires
            base + 3 <= u64::MAX,
        ensures
            r@.len() == 4,
            forall|j: int|
                0 <= j < 4 ==> r@[j] == (if self.mem@.dom().contains((base + j) as u64) {
                    Some(self.mem@[(base + j) as u64])
                } else {
                    None
                }),
    {
        let mut words: Vec<Option<u64>> = Vec::new();
        words.push(self.mem.lookup(base));
        words.push(self.mem.lookup(base + 1));
        words.push(self.mem.lookup(base + 2));
        words.push(self.mem.lookup(base + 3));
        words
    }

    /// Advances the trace cursor past the events of a callee absent from the
    /// source, feeding the memory shadow along the way, until the next event
    /// whose demangled owner is `target`: the function control is expected to
    /// return to. Nothing else of the engine moves.
    pub fn skip_to_function(&mut self, target: &str) -> (r: Result<(), RunError>)
        requires
            old(self).cache.wf(),
            old(self).trace_idx <= old(self).trace@.len(),
        ensures
            final(self).cache.wf(),
            final(self).srcs == old(self).srcs,
            final(self).trace == old(self).trace,
            final(self).prior_top0 == old(self).prior_top0,
            final(self).prior_top1 == old(self).prior_top1,
            final(self).pending_trace_skip == old(self).pending_trace_skip,
            final(self).pending_print_mem == old(self).pending_print_mem,
            final(self).trace_idx <= final(self).trace@.len(),
            forall|i: int|
                0 <= i < old(self).events@.len() ==> final(self).events@[i] == old(self).events@[i],
            final(self).events@.len() >= old(self).events@.len(),
            forall|i: int|
                old(self).events@.len() <= i < final(self).events@.len() ==> (
                #[trigger] final(self).events@[i]) matches Event::MemWarning { .. },
            match r {
                Ok(()) => {
                    &&& old(self).trace_idx < final(self).trace_idx < final(self).trace@.len()
                    &&& demangle::demangle_spec(
                        final(self).trace@[final(self).trace_idx as int].func@,
                    ) == Some(target@)
                    &&& forall|j: int|
                        old(self).trace_idx < j < final(self).trace_idx
                            ==> demangle::demangle_spec(
                            (#[trigger] final(self).trace@[j]).func@,
                        ) != Some(target@)
                },
                Err(e) => {
                    &&& old(self).trace_idx <= final(self).trace_idx
                    &&& match e {
                        RunError::TraceEndedDuringSkip => forall|j: int|
                            old(self).trace_idx < j < final(self).trace@.len()
                                ==> demangle::demangle_spec(
                                (#[trigger] final(self).trace@[j]).func@,
                            ) != Some(target@),
                        RunError::BadSymbol { .. } => final(self).trace_idx < final(self).trace@.len() && demangle::demangle_spec(
                            final(self).trace@[final(self).trace_idx as int].func@,
                        ) is None && forall|j: int|
                            old(self).trace_idx < j < final(self).trace_idx
                                ==> demangle::demangle_spec(
                                (#[trigger] final(self).trace@[j]).func@,
                            ) != Some(target@),
                        _ => false,
                    }
                },
            },
    {
        let ghost start = self.trace_idx;
        loop
            invariant
                self.cache.wf(),
                self.trace_idx <= self.trace@.len(),
                self.trace_idx >= start,
                self.srcs == old(self).srcs,
                self.trace == old(self).trace,
                self.prior_top0 == old(self).prior_top0,
                self.prior_top1 == old(self).prior_top1,
                self.pending_trace_skip == old(self).pending_trace_skip,
                self.pending_print_mem == old(self).pending_print_mem,
                start == old(self).trace_idx,
                forall|i: int|
                    0 <= i < old(self).events@.len() ==> self.events@[i] == old(self).events@[i],
                self.events@.len() >= old(self).events@.len(),
                forall|i: int|
                    old(self).events@.len() <= i < self.events@.len() ==> (
                    #[trigger] self.events@[i]) matches Event::MemWarning { .. },
                forall|j: int|
                    start < j <= self.trace_idx ==> demangle::demangle_spec(
                        (#[trigger] self.trace@[j]).func@,
                    ) != Some(target@),
            decreases self.trace@.len() - self.trace_idx,
        {
            let idx = self.trace_idx;
            self.perform_mem_io_at(idx);
            if self.trace.len() - self.trace_idx <= 1 {
                return Err(RunError::TraceEndedDuringSkip);
            }
            self.trace_idx = self.trace_idx + 1;
            let cur = self.trace_idx;
            let d = match self.cache.demangled(self.trace[cur].func.as_str()) {
                Ok(d) => d,
                Err(e) => {
                    return Err(e);
                },
            };
            if text::str_eq(d.as_str(), target) {
                return Ok(());
            }
        }
    }
}

impl Engine {
    /// Consumes one structurally matched pair: the source op and the trace
    /// event under the cursor agree, so the instruction is emitted with the
    /// recorded operand stack and both positions advance. A matched memory
    /// op leaves a dump of the shadow words around the previously saved top
    /// of stack owing.
    pub fn consume_match(&mut self, opcode: String, arg: Option<String>)
        requires
            old(self).wf(),
            old(self).srcs.pc < old(self).srcs.cur_ops().len(),
            old(self).trace_idx < old(self).trace@.len(),
        ensures
            final(self).wf(),
            final(self).srcs == (SourceManager {
                pc: (old(self).srcs.pc + 1) as usize,
                ..old(self).srcs
            }),
            final(self).trace_idx == old(self).trace_idx + 1,
            final(self).trace == old(self).trace,
            final(self).prior_top0 == old(self).prior_top0,
            final(self).prior_top1 == old(self).prior_top1,
            final(self).pending_trace_skip == old(self).pending_trace_skip,
            final(self).mem == old(self).mem,
            final(self).cache == old(self).cache,
            final(self).pending_print_mem == (if opcode@ == "mem_load"@ || opcode@
                == "mem_store"@ {
                Some(old(self).prior_top1)
            } else {
                None
            }),
            final(self).events@.len() == old(self).events@.len() + 1,
            final(self).events@.last() matches Event::Instruction {
                opcode: o,
                arg: a,
                stack: st,
                indent,
            } && o == opcode && a == arg && st@ == old(self).trace@[old(self).trace_idx as int].stack@ && indent == old(self).srcs.indent,
            forall|i: int|
                0 <= i < old(self).events@.len() ==> final(self).events@[i] == old(self).events@[i],
    {
        proof {
            reveal_strlit("mem_load");
            reveal_strlit("mem_store");
        }
        let is_mem = text::str_eq(opcode.as_str(), "mem_load") || text::str_eq(
            opcode.as_str(),
            "mem_store",
        );
        let ind = self.srcs.indent();
        let stack_copy = copy_stack(&self.trace[self.trace_idx].stack);
        self.events.push(Event::Instruction { opcode, arg, stack: stack_copy, indent: ind });
        self.pending_print_mem = if is_mem {
            Some(self.prior_top1)
        } else {
            None
        };
        let cur_len = self.cur_block_len();
        let tlen = self.trace.len();
        proof {
            assert(self.srcs.pc < cur_len);
            assert(self.trace_idx < tlen);
        }
        self.srcs.next_op();
        self.trace_idx = self.trace_idx + 1;
    }

    /// Resolves a call-type op whose callee the trace does not echo: the
    /// literal argument (behind its two-character marker prefix) names the
    /// callee. A callee found in the source is entered under an `Exec` frame,
    /// unless its final path component starts with the hidden marker `__`,
    /// in which case the call is only stepped past and marked skipped. A
    /// callee absent from the source is marked skipped too, and the
    /// pending-skip flag is raised so the trace cursor can scan forward to
    /// where control returns. No trace event is consumed either way. A call
    /// into the memory intrinsics leaves a dump of the touched words owing.
    pub fn handle_call(&mut self, opcode: String, arg: Option<String>) -> (r: Result<
        (),
        RunError,
    >)
        requires
            old(self).wf(),
            old(self).srcs.pc < old(self).srcs.cur_ops().len(),
            4 + 4 * (old(self).srcs.call_stack@.len() + 1) <= usize::MAX,
        ensures
            final(self).wf(),
            final(self).trace == old(self).trace,
            final(self).trace_idx == old(self).trace_idx,
            final(self).prior_top0 == old(self).prior_top0,
            final(self).prior_top1 == old(self).prior_top1,
            final(self).mem == old(self).mem,
            final(self).cache == old(self).cache,
            final(self).events@.len() >= old(self).events@.len(),
            forall|i: int|
                0 <= i < old(self).events@.len() ==> final(self).events@[i] == old(self).events@[i],
            match r {
                Err(e) => {
                    &&& e is CallMissingArg
                    &&& (arg is None || (arg matches Some(a) && a@.len() < 2))
                    &&& final(self).srcs == old(self).srcs
                    &&& final(self).pending_trace_skip == old(self).pending_trace_skip
                    &&& final(self).events@ == old(self).events@.push(
                        Event::CallOp { opcode, arg, indent: old(self).srcs.indent },
                    )
                },
                Ok(()) => arg matches Some(a) && {
                    let callee = a@.skip(2);
                    let m = old(self).srcs.srcs@;
                    &&& a@.len() >= 2
                    &&& final(self).pending_print_mem == (if text::spec_starts_with(
                        callee,
                        "intrinsics::mem::"@,
                    ) {
                        Some(old(self).prior_top1)
                    } else {
                        None
                    })
                    &&& if !old(self).srcs.exists_block_named(callee) {
                        &&& final(self).srcs == (SourceManager {
                            pc: (old(self).srcs.pc + 1) as usize,
                            ..old(self).srcs
                        })
                        &&& final(self).pending_trace_skip
                        &&& final(self).events@ == old(self).events@.push(
                            Event::CallOp { opcode, arg, indent: old(self).srcs.indent },
                        ).push(
                            Event::Skipping { indent: (old(self).srcs.indent + 4) as usize },
                        )
                    } else if text::spec_starts_with(text::after_last_sep(callee), "__"@) {
                        &&& final(self).srcs == (SourceManager {
                            pc: (old(self).srcs.pc + 1) as usize,
                            ..old(self).srcs
                        })
                        &&& final(self).pending_trace_skip == old(self).pending_trace_skip
                        &&& final(self).events@ == old(self).events@.push(
                            Event::CallOp { opcode, arg, indent: old(self).srcs.indent },
                        ).push(
                            Event::Skipping { indent: (old(self).srcs.indent + 4) as usize },
                        )
                    } else {
                        &&& m.dom().contains(final(self).srcs.src_block_key)
                        &&& crate::src_mgr::block_has_name(
                            m[final(self).srcs.src_block_key],
                            callee,
                        )
                        &&& final(self).srcs.pc == 0
                        &&& final(self).srcs.call_stack@ == old(self).srcs.call_stack@.push(
                            (
                                BlockType::Exec,
                                old(self).srcs.src_block_key,
                                (old(self).srcs.pc + 1) as usize,
                            ),
                        )
                        &&& final(self).srcs.indent == old(self).srcs.indent
                        &&& final(self).srcs.srcs == old(self).srcs.srcs
                        &&& final(self).pending_trace_skip == old(self).pending_trace_skip
                        &&& final(self).events@.len() == old(self).events@.len() + 2
                        &&& final(self).events@[final(self).events@.len() - 2]
                            == Event::CallOp { opcode, arg, indent: old(self).srcs.indent }
                        &&& final(self).events@.last() matches Event::EnterFunc { name }
                            && name@ == callee
                    }
                },
            },
    {
        let ind = self.srcs.indent();
        self.events.push(
            Event::CallOp { opcode: opcode.clone(), arg: clone_opt_string(&arg), indent: ind },
        );
        let arg_str = match &arg {
            Some(a) => a,
            None => {
                return Err(RunError::CallMissingArg { opcode });
            },
        };
        let arg_len = arg_str.as_str().unicode_len();
        if arg_len < 2 {
            return Err(RunError::CallMissingArg { opcode });
        }
        let callee = arg_str.as_str().substring_char(2, arg_len);
        proof {
            assert(callee@ =~= arg_str@.skip(2));
        }
        self.pending_print_mem = if text::starts_with(callee, "intrinsics::mem::") {
            Some(self.prior_top1)
        } else {
            None
        };
        match self.srcs.find_block_key(callee) {
            Some(callee_block_key) => {
                let last_comp = text::last_path_component(callee);
                if text::starts_with(last_comp, "__") {
                    proof {
                        lemma_branch_frames_lt(self.srcs.call_stack@);
                    }
                    let ind2 = self.srcs.indent_next();
                    self.events.push(Event::Skipping { indent: ind2 });
                    let cur_len = self.cur_block_len();
                    proof {
                        assert(self.srcs.pc < cur_len);
                    }
                    self.srcs.next_op();
                    Ok(())
                } else {
                    let cur_len = self.cur_block_len();
                    proof {
                        assert(self.srcs.pc < cur_len);
                    }
                    let ghost pre = self.srcs.call_stack@;
                    self.srcs.enter(BlockType::Exec, callee_block_key);
                    proof {
                        assert(self.srcs.call_stack@.drop_last() =~= pre);
                        assert(self.srcs.call_stack@[0] == pre[0]);
                    }
                    match self.srcs.get_src_func_name() {
                        Ok(name) => {
                            self.events.push(Event::EnterFunc { name });
                            Ok(())
                        },
                        Err(e) => {
                            // Unreachable: the callee was found by name, so
                            // the entered block is named.
                            Err(e)
                        },
                    }
                }
            },
            None => {
                proof {
                    lemma_branch_frames_lt(self.srcs.call_stack@);
                }
                let ind2 = self.srcs.indent_next();
                self.events.push(Event::Skipping { indent: ind2 });
                self.pending_trace_skip = true;
                let cur_len = self.cur_block_len();
                proof {
                    assert(self.srcs.pc < cur_len);
                }
                self.srcs.next_op();
                Ok(())
            },
        }
    }

    /// Decides a conditional from the operand saved just before it: a zero
    /// prior top-of-stack selects the false arm, any nonzero value the true
    /// arm. The engine descends into the chosen arm under a new frame, and
    /// the emitted event carries the decision; the untaken arm never runs
    /// and its skip marker is rendered from that event.
    pub fn take_branch(
        &mut self,
        t_block_key: slotmap::DefaultKey,
        f_block_key: slotmap::DefaultKey,
    )
        requires
            old(self).wf(),
            old(self).srcs.pc < old(self).srcs.cur_ops().len(),
            old(self).srcs.srcs@.dom().contains(t_block_key),
            old(self).srcs.srcs@.dom().contains(f_block_key),
            4 + 4 * (old(self).srcs.call_stack@.len() + 1) <= usize::MAX,
        ensures
            final(self).wf(),
            ({
                let cond = old(self).prior_top1 != 0;
                &&& final(self).srcs.src_block_key == (if cond {
                    t_block_key
                } else {
                    f_block_key
                })
                &&& final(self).srcs.pc == 0
                &&& final(self).srcs.call_stack@ == old(self).srcs.call_stack@.push(
                    (
                        (if cond {
                            BlockType::TrueBlock
                        } else {
                            BlockType::FalseBlock
                        }),
                        old(self).srcs.src_block_key,
                        (old(self).srcs.pc + 1) as usize,
                    ),
                )
                &&& final(self).events@ == old(self).events@.push(
                    Event::CondEnter { taken_true: cond, indent: old(self).srcs.indent },
                )
                &&& final(self).srcs.indent == old(self).srcs.indent + 4
                &&& final(self).srcs.srcs == old(self).srcs.srcs
                &&& final(self).trace_idx == old(self).trace_idx
                &&& final(self).prior_top0 == old(self).prior_top0
                &&& final(self).prior_top1 == old(self).prior_top1
                &&& final(self).pending_trace_skip == old(self).pending_trace_skip
                &&& final(self).pending_print_mem == old(self).pending_print_mem
                &&& final(self).mem == old(self).mem
                &&& final(self).cache == old(self).cache
                &&& final(self).trace == old(self).trace
            }),
    {
        let cond = self.prior_top1 != 0;
        let ind = self.srcs.indent();
        self.events.push(Event::CondEnter { taken_true: cond, indent: ind });
        proof {
            lemma_branch_frames_lt(self.srcs.call_stack@);
        }
        self.srcs.inc_indent();
        let cur_len = self.cur_block_len();
        proof {
            assert(self.srcs.pc < cur_len);
        }
        let ghost pre = self.srcs.call_stack@;
        if !cond {
            self.srcs.enter(BlockType::FalseBlock, f_block_key);
        } else {
            self.srcs.enter(BlockType::TrueBlock, t_block_key);
        }
        proof {
            assert(self.srcs.call_stack@.drop_last() =~= pre);
            assert(self.srcs.call_stack@[0] == pre[0]);
        }
    }

    /// Walks the structured source in lock step with the flat trace until the
    /// entry procedure returns (the sentinel frame is popped and the call
    /// stack is left empty: nothing but the sentinel remained) or the trace
    /// runs out, emitting the logical events of the reconstructed run. Every
    /// reachable position keeps the engine invariant `wf`; running past a
    /// block's end pops exactly one frame per iteration. `fuel` bounds the
    /// number of iterations; a run that would go on longer fails with
    /// `OutOfFuel` instead.
    #[verifier::rlimit(50)]
    pub fn run(&mut self, entry_func: &Option<String>, fuel: u64) -> (r: Result<RunEnd, RunError>)
        requires
            arena_closed(old(self).srcs.srcs@),
            old(self).cache.wf(),
            old(self).srcs.pc == 0,
            old(self).srcs.indent == 0,
            old(self).srcs.call_stack@.len() == 1,
            old(self).srcs.call_stack@[0].0 is Start,
            old(self).trace_idx == 0,
        ensures
            r matches Ok(_) ==> final(self).events@.len() > 0 && final(self).events@.last()
                == Event::EndOfTrace,
            r == Ok::<RunEnd, RunError>(RunEnd::EntryReturned) ==> final(self).srcs.call_stack@.len() == 0 && final(self).events@.len() >= 2 && final(self).events@[final(self).events@.len() - 2] == Event::ReturnedFromEntry,
            r == Ok::<RunEnd, RunError>(RunEnd::TraceEnded) ==> final(self).trace_idx == final(self).trace@.len(),
            final(self).events@.len() >= old(self).events@.len(),
            forall|i: int|
                0 <= i < old(self).events@.len() ==> final(self).events@[i] == old(self).events@[i],
            r matches Ok(_) ==> final(self).events@.len() > old(self).events@.len() && ((
            final(self).events@[old(self).events@.len() as int]) matches Event::EntryAt { name }
                && (entry_func matches Some(e) ==> text::spec_ends_with(name@, e@)) && (entry_func
                is None ==> old(self).trace@.len() > 0 && ({
                let f = old(self).trace@[0].func@;
                if text::spec_ends_with(f, "::run"@) && old(self).srcs.exists_block_named(f) {
                    name@ == f
                } else {
                    name@ == crate::src_mgr::init_run_name(f)
                }
            }))),
    {
        let entry_name = match self.srcs.set_entry(&self.trace, entry_func) {
            Ok(n) => n,
            Err(e) => {
                return Err(e);
            },
        };
        let banner_name = match self.srcs.get_src_func_name() {
            Ok(n) => n,
            Err(e) => {
                return Err(e);
            },
        };
        let ghost base = self.events@.len();
        self.events.push(Event::EntryAt { name: banner_name });
        if entry_func.is_some() {
            let n = self.trace.len();
            let ghost srcs_snap = self.srcs;
            let mut found = false;
            while self.trace_idx < n && !found
                invariant
                    n == self.trace@.len(),
                    self.trace_idx <= n,
                    self.srcs == srcs_snap,
                    self.cache == old(self).cache,
                    self.trace == old(self).trace,
                    self.events@.len() >= old(self).events@.len(),
                    forall|i: int|
                        0 <= i < old(self).events@.len() ==> self.events@[i] == old(self).events@[i],
                    base == old(self).events@.len(),
                    self.events@.len() > base,
                    self.events@[base as int] == (Event::EntryAt { name: banner_name }),
                decreases n - self.trace_idx + (if found {
                    0int
                } else {
                    1int
                }),
            {
                if text::str_eq(self.trace[self.trace_idx].func.as_str(), entry_name.as_str()) {
                    found = true;
                } else {
                    self.trace_idx = self.trace_idx + 1;
                }
            }
            if !found {
                return Err(RunError::EntryNotInTrace { entry: entry_name });
            }
        }
        self.srcs.inc_indent();
        proof {
            assert(branch_frames(self.srcs.call_stack@) == 0) by {
                assert(self.srcs.call_stack@.last() == self.srcs.call_stack@[0]);
                assert(self.srcs.call_stack@.drop_last() =~= Seq::<(
                    BlockType,
                    slotmap::DefaultKey,
                    usize,
                )>::empty());
                assert(branch_frames(
                    Seq::<(BlockType, slotmap::DefaultKey, usize)>::empty(),
                ) == 0);
            }
        }

        let mut outcome: Option<Result<RunEnd, RunError>> = None;
        let mut fuel_left: u64 = fuel;
        proof {
            reveal_strlit("trace");
            reveal_strlit("exec");
            reveal_strlit("call");
            reveal_strlit("mem_load");
            reveal_strlit("mem_store");
            reveal_strlit("intrinsics::mem::");
            reveal_strlit("__");
        }
        while outcome.is_none() && fuel_left > 0
            invariant
                outcome is None ==> self.wf(),
                outcome == Some(Ok::<RunEnd, RunError>(RunEnd::EntryReturned))
                    ==> self.srcs.call_stack@.len() == 0 && self.events@.len() > 0
                    && self.events@.last() == Event::ReturnedFromEntry,
                outcome == Some(Ok::<RunEnd, RunError>(RunEnd::TraceEnded)) ==> self.trace_idx
                    == self.trace@.len() && self.wf(),
                self.events@.len() >= old(self).events@.len(),
                forall|i: int|
                    0 <= i < old(self).events@.len() ==> self.events@[i] == old(self).events@[i],
                base == old(self).events@.len(),
                self.events@.len() > base,
                self.events@[base as int] == (Event::EntryAt { name: banner_name }),
            decreases fuel_left,
        {
            fuel_left = fuel_left - 1;

            // Step 1: leave any block whose end the position has passed,
            // popping exactly one frame.
            let ghost pre_stack = self.srcs.call_stack@;
            match self.srcs.check_leave() {
                Err(e) => {
                    outcome = Some(Err(e));
                    continue ;
                },
                Ok(Some(frame)) => {
                    proof {
                        let n = pre_stack.len();
                        assert(pre_stack.drop_last() =~= self.srcs.call_stack@);
                        lemma_branch_frames_le(self.srcs.call_stack@);
                        assert(pre_stack.last() == pre_stack[n - 1]);
                        if n >= 2 {
                            assert(self.srcs.srcs@.dom().contains(pre_stack[n - 1].1));
                        }
                        assert(branch_frames(pre_stack) == (if pre_stack.last().0 is TrueBlock
                            || pre_stack.last().0 is FalseBlock {
                            1nat
                        } else {
                            0nat
                        }) + branch_frames(self.srcs.call_stack@));
                        assert forall|i: int|
                            1 <= i < self.srcs.call_stack@.len() implies self.srcs.srcs@.dom()
                            .contains((#[trigger] self.srcs.call_stack@[i]).1)
                            && self.srcs.call_stack@[i].2
                            <= self.srcs.srcs@[self.srcs.call_stack@[i].1].ops@.len() && !(
                        self.srcs.call_stack@[i].0 is Start) by {
                            assert(self.srcs.call_stack@[i] == pre_stack[i]);
                        }
                    }
                    match frame {
                        BlockType::Start => {
                            proof {
                                if pre_stack.len() >= 2 {
                                    assert(!(pre_stack[pre_stack.len() - 1].0 is Start));
                                }
                            }
                            self.events.push(Event::ReturnedFromEntry);
                            outcome = Some(Ok(RunEnd::EntryReturned));
                        },
                        BlockType::Exec => {
                            match self.srcs.get_src_func_name() {
                                Ok(name) => {
                                    self.events.push(Event::ReturnToFunc { name });
                                },
                                Err(e) => {
                                    outcome = Some(Err(e));
                                },
                            }
                        },
                        BlockType::TrueBlock => {
                            self.srcs.dec_indent();
                            let ind = self.srcs.indent();
                            self.events.push(Event::TrueArmEnd { indent: ind });
                        },
                        BlockType::FalseBlock => {
                            self.srcs.dec_indent();
                            let ind = self.srcs.indent();
                            self.events.push(Event::FalseArmEnd { indent: ind });
                        },
                    }
                    continue ;
                },
                Ok(None) => {},
            }

            // Step 2: a pending skip scans the trace forward to the function
            // control returns into.
            if self.pending_trace_skip {
                let ret_func_str = match self.srcs.get_src_func_name() {
                    Ok(s) => s,
                    Err(e) => {
                        outcome = Some(Err(e));
                        continue ;
                    },
                };
                match self.skip_to_function(ret_func_str.as_str()) {
                    Ok(()) => {
                        self.pending_trace_skip = false;
                    },
                    Err(e) => {
                        outcome = Some(Err(e));
                        continue ;
                    },
                }
            }

            // Step 3: a memory dump owed from the last memory op.
            if let Some(addr) = self.pending_print_mem {
                let base = addr - addr % 4;
                proof {
                    assert(base + 3 <= u64::MAX) by {
                        assert(base % 4 == 0);
                    }
                }
                let words = self.dump_words(base);
                self.events.push(Event::MemDump { base, words });
                self.pending_print_mem = None;
            }

            // Step 4: feed the memory shadow from the event under the cursor.
            self.perform_mem_io_at(self.trace_idx);

            // Step 5: end of trace, or an intermediate micro-step.
            if self.trace_idx >= self.trace.len() {
                outcome = Some(Ok(RunEnd::TraceEnded));
                continue ;
            }
            if self.trace[self.trace_idx].cycle != self.trace[self.trace_idx].total {
                self.trace_idx = self.trace_idx + 1;
                continue ;
            }

            // Step 6: the source op; `trace` ops exist only in source form.
            let src_op: Op = match self.srcs.get_src_op() {
                Op::Op { opcode, arg } => Op::Op {
                    opcode: opcode.clone(),
                    arg: clone_opt_string(arg),
                },
                Op::Conditional(t, f) => Op::Conditional(*t, *f),
            };
            proof {
                assert(src_op == self.srcs.cur_ops()[self.srcs.pc as int]);
            }
            let src_is_trace_op = match &src_op {
                Op::Op { opcode, .. } => text::str_eq(opcode.as_str(), "trace"),
                Op::Conditional(..) => false,
            };
            if src_is_trace_op {
                let cur_len = self.cur_block_len();
                proof {
                    assert(self.srcs.pc < cur_len);
                }
                self.srcs.next_op();
                continue ;
            }

            // Step 7: roll the two-slot top-of-stack register.
            if self.trace[self.trace_idx].stack.len() == 0 {
                outcome = Some(Err(RunError::EmptyStackEvent { index: self.trace_idx }));
                continue ;
            }
            self.prior_top1 = self.prior_top0;
            self.prior_top0 = self.trace[self.trace_idx].stack[0];

            // Step 8: the common case, a structural match. A conditional
            // never matches a trace op, so the matched op is plain.
            if crate::masm::op_matches(&src_op, &self.trace[self.trace_idx].op) {
                let (opcode, arg) = match src_op {
                    Op::Op { opcode, arg } => (opcode, arg),
                    Op::Conditional(..) => {
                        proof {
                            assert(false);
                        }
                        unreached()
                    },
                };
                self.consume_match(opcode, arg);
                continue ;
            }

            // Step 9: a mismatch is explained by a call or a conditional;
            // anything else is a desynchronization.
            match src_op {
                Op::Op { opcode, arg } => {
                    let is_call = text::str_eq(opcode.as_str(), "exec") || text::str_eq(
                        opcode.as_str(),
                        "call",
                    );
                    if is_call {
                        if self.srcs.call_stack.len() > (usize::MAX - 8) / 4 {
                            outcome = Some(Err(RunError::NestingTooDeep));
                            continue ;
                        }
                        match self.handle_call(opcode, arg) {
                            Ok(()) => {},
                            Err(e) => {
                                outcome = Some(Err(e));
                            },
                        }
                    } else {
                        let src_func = match self.srcs.get_src_func_name() {
                            Ok(s) => s,
                            Err(e) => {
                                outcome = Some(Err(e));
                                continue ;
                            },
                        };
                        let (t_opcode, t_arg) = match &self.trace[self.trace_idx].op {
                            Op::Op { opcode: o, arg: a } => (o.clone(), clone_opt_string(a)),
                            Op::Conditional(..) => (String::new(), None),
                        };
                        outcome = Some(
                            Err(
                                RunError::Mismatch {
                                    src_func,
                                    src_opcode: opcode,
                                    src_arg: arg,
                                    trace_func: self.trace[self.trace_idx].func.clone(),
                                    trace_opcode: t_opcode,
                                    trace_arg: t_arg,
                                },
                            ),
                        );
                    }
                },
                Op::Conditional(t_block_key, f_block_key) => {
                    proof {
                        assert(self.srcs.srcs@.dom().contains(self.srcs.src_block_key)
                            && self.srcs.cur_ops()[self.srcs.pc as int] == Op::Conditional(
                            t_block_key,
                            f_block_key,
                        ));
                        assert(self.srcs.srcs@.dom().contains(t_block_key)
                            && self.srcs.srcs@.dom().contains(f_block_key));
                    }
                    if self.srcs.call_stack.len() > (usize::MAX - 8) / 4 {
                        outcome = Some(Err(RunError::NestingTooDeep));
                        continue ;
                    }
                    self.take_branch(t_block_key, f_block_key);
                },
            }
        }
        match outcome {
            Some(Ok(end)) => {
                self.events.push(Event::EndOfTrace);
                proof {
                    assert(self.events@.last() == Event::EndOfTrace);
                }
                Ok(end)
            },
            Some(Err(e)) => Err(e),
            None => Err(RunError::OutOfFuel),
        }
    }
}

} // verus!

use vstd::prelude::*;

use crate::errors::RunError;
use crate::masm::{Block, SourceBlocks};
use crate::text;
use crate::trace::Trace;

verus! {

/// How much one call or branch level indents the output.
pub const INDENT_AMOUNT: usize = 4;

/// What kind of block a call-stack frame returns into: the bottom sentinel,
/// a called procedure, or one arm of a conditional.
pub enum BlockType {
    Start,
    Exec,
    TrueBlock,
    FalseBlock,
}

/// True when the block carries exactly this name.
pub open spec fn block_has_name(b: Block, n: Seq<char>) -> bool {
    b.name matches Some(s) && s@ == n
}

/// True when the block's name ends with the suffix `n`.
pub open spec fn block_name_ends_with(b: Block, n: Seq<char>) -> bool {
    b.name matches Some(s) && text::spec_ends_with(s@, n)
}

/// The default-entry substitute: the sibling `::run` name of an `::init`
/// symbol.
pub open spec fn init_run_name(f: Seq<char>) -> Seq<char> {
    f.take(f.len() - 6) + "::run"@
}

/// The engine's position in the source: the arena of blocks, the current
/// block and program counter, the call stack of frames to return into, and
/// the current output indentation.
pub struct SourceManager {
    pub srcs: SourceBlocks,
    pub src_block_key: slotmap::DefaultKey,
    pub pc: usize,
    pub call_stack: Vec<(BlockType, slotmap::DefaultKey, usize)>,
    pub indent: usize,
}

impl SourceManager {
    /// Some block is stored under this exact name.
    pub open spec fn exists_block_named(self, n: Seq<char>) -> bool {
        exists|k: slotmap::DefaultKey|
            #[trigger] self.srcs@.dom().contains(k) && block_has_name(self.srcs@[k], n)
    }

    /// The name found searching frames `i`, `i - 1`, ..., `0` for a named
    /// block.
    pub open spec fn stack_name_from(self, i: int) -> Option<Seq<char>>
        decreases i + 1,
    {
        if i < 0 {
            None
        } else {
            let k = self.call_stack@[i].1;
            if self.srcs@.dom().contains(k) {
                match self.srcs@[k].name {
                    Some(s) => Some(s@),
                    None => self.stack_name_from(i - 1),
                }
            } else {
                self.stack_name_from(i - 1)
            }
        }
    }

    /// The display name of the function the engine currently sits in: the
    /// current block's name, else the nearest named block down the stack.
    pub open spec fn spec_func_name(self) -> Option<Seq<char>> {
        if self.srcs@.dom().contains(self.src_block_key) && self.srcs@[self.src_block_key].name
            is Some {
            match self.srcs@[self.src_block_key].name {
                Some(s) => Some(s@),
                None => None,
            }
        } else {
            self.stack_name_from(self.call_stack@.len() - 1)
        }
    }

    /// The ops of the current block.
    pub open spec fn cur_ops(self) -> Seq<crate::masm::Op> {
        self.srcs@[self.src_block_key].ops@
    }

    pub fn new(srcs: SourceBlocks) -> (r: SourceManager)
        ensures
            r.srcs == srcs,
            r.pc == 0,
            r.indent == 0,
            r.call_stack@.len() == 1,
            r.call_stack@[0].0 is Start,
            r.call_stack@[0].2 == 0,
            r.call_stack@[0].1 == r.src_block_key,
            forall|m: SourceBlocks| !crate::masm::arena_view(m).dom().contains(r.src_block_key),
    {
        let k = crate::masm::null_key();
        SourceManager {
            srcs,
            src_block_key: k,
            pc: 0,
            call_stack: vec![(BlockType::Start, k, 0)],
            indent: 0,
        }
    }

    /// Looks a block up by its exact full name.
    pub fn find_block_key(&self, func: &str) -> (r: Option<slotmap::DefaultKey>)
        ensures
            match r {
                Some(k) => self.srcs@.dom().contains(k) && block_has_name(self.srcs@[k], func@),
                None => forall|k: slotmap::DefaultKey|
                    #[trigger] self.srcs@.dom().contains(k) ==> !block_has_name(
                        self.srcs@[k],
                        func@,
                    ),
            },
    {
        let keys = self.srcs.keys();
        let n = keys.len();
        let mut i: usize = 0;
        while i < n
            invariant
                n == keys@.len(),
                i <= n,
                forall|j: int|
                    0 <= j < keys@.len() ==> self.srcs@.dom().contains(#[trigger] keys@[j]),
                forall|k: slotmap::DefaultKey|
                    self.srcs@.dom().contains(k) ==> keys@.contains(k),
                forall|j: int|
                    0 <= j < i ==> !block_has_name(self.srcs@[#[trigger] keys@[j]], func@),
            decreases n - i,
        {
            let k = keys[i];
            if let Some(name) = self.srcs.get(k).name() {
                if text::str_eq(name.as_str(), func) {
                    return Some(k);
                }
            }
            i = i + 1;
        }
        proof {
            assert forall|k: slotmap::DefaultKey|
                #[trigger] self.srcs@.dom().contains(k) implies !block_has_name(
                self.srcs@[k],
                func@,
            ) by {
                assert(keys@.contains(k));
                let j = choose|j: int| 0 <= j < keys@.len() && keys@[j] == k;
                assert(!block_has_name(self.srcs@[keys@[j]], func@));
            }
        }
        None
    }

    /// Collects every block whose name ends with the given suffix.
    pub fn fuzzy_find_block_key(&self, func: &str) -> (r: Vec<slotmap::DefaultKey>)
        ensures
            forall|j: int|
                0 <= j < r@.len() ==> self.srcs@.dom().contains(#[trigger] r@[j])
                    && block_name_ends_with(self.srcs@[r@[j]], func@),
            forall|k: slotmap::DefaultKey|
                #[trigger] self.srcs@.dom().contains(k) && block_name_ends_with(
                    self.srcs@[k],
                    func@,
                ) ==> r@.contains(k),
            forall|i: int, j: int| 0 <= i < j < r@.len() ==> r@[i] != r@[j],
    {
        let keys = self.srcs.keys();
        let n = keys.len();
        let mut found: Vec<slotmap::DefaultKey> = Vec::new();
        let mut i: usize = 0;
        while i < n
            invariant
                n == keys@.len(),
                i <= n,
                forall|j: int|
                    0 <= j < keys@.len() ==> self.srcs@.dom().contains(#[trigger] keys@[j]),
                forall|k: slotmap::DefaultKey|
                    self.srcs@.dom().contains(k) ==> keys@.contains(k),
                forall|i2: int, j2: int| 0 <= i2 < j2 < keys@.len() ==> keys@[i2] != keys@[j2],
                forall|j: int|
                    0 <= j < found@.len() ==> self.srcs@.dom().contains(#[trigger] found@[j])
                        && block_name_ends_with(self.srcs@[found@[j]], func@),
                forall|j: int|
                    0 <= j < i && block_name_ends_with(self.srcs@[#[trigger] keys@[j]], func@)
                        ==> found@.contains(keys@[j]),
                forall|j: int|
                    0 <= j < found@.len() ==> exists|j2: int|
                        0 <= j2 < i && keys@[j2] == #[trigger] found@[j],
                forall|i2: int, j2: int| 0 <= i2 < j2 < found@.len() ==> found@[i2] != found@[j2],
            decreases n - i,
        {
            let k = keys[i];
            let push_it = match self.srcs.get(k).name() {
                Some(name) => text::ends_with(name.as_str(), func),
                None => false,
            };
            proof {
                if !push_it {
                    assert(!block_name_ends_with(self.srcs@[keys@[i as int]], func@));
                }
            }
            if push_it {
                proof {
                    assert forall|j: int| 0 <= j < found@.len() implies found@[j] != k by {
                        let j2 = choose|j2: int| 0 <= j2 < i && keys@[j2] == found@[j];
                    }
                }
                let ghost old_found = found@;
                found.push(k);
                proof {
                    assert forall|x: slotmap::DefaultKey| old_found.contains(x) implies found@
                        .contains(x) by {
                        let j2 = choose|j2: int| 0 <= j2 < old_found.len() && old_found[j2] == x;
                        assert(found@[j2] == x);
                    }
                    assert(found@.contains(k)) by {
                        assert(found@[found@.len() - 1] == k);
                    }
                }
            }
            i = i + 1;
        }
        proof {
            assert forall|k: slotmap::DefaultKey|
                #[trigger] self.srcs@.dom().contains(k) && block_name_ends_with(
                self.srcs@[k],
                func@,
            ) implies found@.contains(k) by {
                let j = choose|j: int| 0 <= j < keys@.len() && keys@[j] == k;
                assert(keys@.contains(k));
                assert(found@.contains(keys@[j]));
            }
        }
        found
    }

    /// The display name of the function the engine currently sits in.
    pub fn get_src_func_name(&self) -> (r: Result<String, RunError>)
        ensures
            match r {
                Ok(name) => self.spec_func_name() matches Some(n) && n == name@,
                Err(e) => self.spec_func_name() is None && e is NoFunctionName,
            },
    {
        if self.srcs.contains_key(self.src_block_key) {
            if let Some(n) = self.srcs.get(self.src_block_key).name() {
                return Ok(n.clone());
            }
        }
        let mut i: usize = self.call_stack.len();
        while i > 0
            invariant
                i <= self.call_stack@.len(),
                self.spec_func_name() == self.stack_name_from(i - 1),
            decreases i,
        {
            let frame_key = self.call_stack[i - 1].1;
            if self.srcs.contains_key(frame_key) {
                if let Some(n) = self.srcs.get(frame_key).name() {
                    proof {
                        assert(frame_key == self.call_stack@[i - 1].1);
                        assert(self.srcs@.dom().contains(frame_key));
                        assert(self.srcs@[frame_key].name matches Some(s) && s@ == n@);
                        assert(self.stack_name_from(i - 1) == Some(n@));
                        assert(self.spec_func_name() == Some(n@));
                    }
                    return Ok(n.clone());
                }
            }
            i = i - 1;
        }
        Err(RunError::NoFunctionName)
    }

    /// The op the engine stands on.
    pub fn get_src_op(&self) -> (r: &crate::masm::Op)
        requires
            self.srcs@.dom().contains(self.src_block_key),
            self.pc < self.cur_ops().len(),
        ensures
            *r == self.cur_ops()[self.pc as int],
    {
        self.srcs.get(self.src_block_key).op_at(self.pc)
    }

    /// Steps past the current op.
    pub fn next_op(&mut self)
        requires
            old(self).pc < usize::MAX,
        ensures
            *final(self) == (SourceManager { pc: (old(self).pc + 1) as usize, ..*old(self) }),
    {
        self.pc = self.pc + 1;
    }

    pub fn indent(&self) -> (r: usize)
        ensures
            r == self.indent,
    {
        self.indent
    }

    /// The indentation one level deeper than the current one.
    pub fn indent_next(&self) -> (r: usize)
        requires
            self.indent + INDENT_AMOUNT <= usize::MAX,
        ensures
            r == self.indent + INDENT_AMOUNT,
    {
        self.indent + INDENT_AMOUNT
    }

    pub fn inc_indent(&mut self)
        requires
            old(self).indent + INDENT_AMOUNT <= usize::MAX,
        ensures
            *final(self) == (SourceManager {
                indent: (old(self).indent + INDENT_AMOUNT) as usize,
                ..*old(self)
            }),
    {
        self.indent = self.indent + INDENT_AMOUNT;
    }

    pub fn dec_indent(&mut self)
        requires
            old(self).indent >= INDENT_AMOUNT,
        ensures
            *final(self) == (SourceManager {
                indent: (old(self).indent - INDENT_AMOUNT) as usize,
                ..*old(self)
            }),
    {
        self.indent = self.indent - INDENT_AMOUNT;
    }

    /// Descends into a block, remembering where to come back to: the frame
    /// holds the kind of entry and the position just past the op that caused
    /// it.
    pub fn enter(&mut self, frame: BlockType, target_block_key: slotmap::DefaultKey)
        requires
            old(self).pc < usize::MAX,
        ensures
            *final(self) == (SourceManager {
                src_block_key: target_block_key,
                pc: 0,
                call_stack: final(self).call_stack,
                ..*old(self)
            }),
            final(self).call_stack@ == old(self).call_stack@.push(
                (frame, old(self).src_block_key, (old(self).pc + 1) as usize),
            ),
    {
        self.call_stack.push((frame, self.src_block_key, self.pc + 1));
        self.src_block_key = target_block_key;
        self.pc = 0;
    }

    /// When the engine has run off the end of the current block, pops exactly
    /// one frame and restores its position; otherwise does nothing. Popping
    /// with an empty stack is the internal-consistency failure.
    pub fn check_leave(&mut self) -> (r: Result<Option<BlockType>, RunError>)
        requires
            old(self).srcs@.dom().contains(old(self).src_block_key),
        ensures
            old(self).pc < old(self).cur_ops().len() ==> r == Ok::<Option<BlockType>, RunError>(
                None,
            ) && *final(self) == *old(self),
            old(self).pc >= old(self).cur_ops().len() && old(self).call_stack@.len() == 0 ==> (r
                matches Err(e) && e is StackUnderflow) && *final(self) == *old(self),
            old(self).pc >= old(self).cur_ops().len() && old(self).call_stack@.len() > 0 ==> ({
                let frame = old(self).call_stack@.last();
                &&& r == Ok::<Option<BlockType>, RunError>(Some(frame.0))
                &&& final(self).src_block_key == frame.1
                &&& final(self).pc == frame.2
                &&& final(self).call_stack@ == old(self).call_stack@.drop_last()
                &&& final(self).srcs == old(self).srcs
                &&& final(self).indent == old(self).indent
            }),
    {
        if self.pc >= self.srcs.get(self.src_block_key).len() {
            if self.call_stack.len() == 0 {
                return Err(RunError::StackUnderflow);
            }
            let (frame, ret_block_key, ret_pc) = self.call_stack.pop().unwrap();
            self.src_block_key = ret_block_key;
            self.pc = ret_pc;
            Ok(Some(frame))
        } else {
            Ok(None)
        }
    }

    /// Resolves the entry procedure: an explicit entry must match exactly one
    /// block name by suffix; with none given, the first traced function
    /// decides (its own name when it ends in `::run`, else the sibling
    /// `::run` of its `::init`). On success the manager stands at the entry
    /// block and its full name is returned.
    #[verifier::rlimit(100)]
    #[verifier::spinoff_prover]
    pub fn set_entry(&mut self, trace: &Vec<Trace>, entry_func: &Option<String>) -> (r: Result<
        String,
        RunError,
    >)
        ensures
            final(self).srcs == old(self).srcs,
            final(self).pc == old(self).pc,
            final(self).indent == old(self).indent,
            final(self).call_stack == old(self).call_stack,
            match r {
                Ok(name) => {
                    &&& final(self).srcs@.dom().contains(final(self).src_block_key)
                    &&& block_has_name(final(self).srcs@[final(self).src_block_key], name@)
                    &&& match entry_func {
                        Some(e) => block_name_ends_with(
                            final(self).srcs@[final(self).src_block_key],
                            e@,
                        ) && forall|k: slotmap::DefaultKey|
                            #[trigger] old(self).srcs@.dom().contains(k) && block_name_ends_with(
                                old(self).srcs@[k],
                                e@,
                            ) ==> k == final(self).src_block_key,
                        None => trace@.len() > 0 && ({
                            let f = trace@[0].func@;
                            if text::spec_ends_with(f, "::run"@) && old(self).exists_block_named(
                                f,
                            ) {
                                block_has_name(final(self).srcs@[final(self).src_block_key], f)
                            } else if text::spec_ends_with(f, "::init"@) && old(
                                self,
                            ).exists_block_named(init_run_name(f)) {
                                block_has_name(
                                    final(self).srcs@[final(self).src_block_key],
                                    init_run_name(f),
                                )
                            } else {
                                false
                            }
                        }),
                    }
                },
                Err(e) => *final(self) == *old(self) && match e {
                    RunError::EntryNotFound { .. } => entry_func matches Some(ef)
                        && forall|k: slotmap::DefaultKey|
                        #[trigger] old(self).srcs@.dom().contains(k) ==> !block_name_ends_with(
                            old(self).srcs@[k],
                            ef@,
                        ),
                    RunError::EntryAmbiguous { candidates } => entry_func matches Some(ef) && {
                        &&& exists|k1: slotmap::DefaultKey, k2: slotmap::DefaultKey|
                            k1 != k2 && #[trigger] old(self).srcs@.dom().contains(k1)
                                && #[trigger] old(self).srcs@.dom().contains(k2)
                                && block_name_ends_with(old(self).srcs@[k1], ef@)
                                && block_name_ends_with(old(self).srcs@[k2], ef@)
                        &&& candidates@.len() >= 2
                        &&& forall|i: int|
                            #![trigger candidates@[i]]
                            0 <= i < candidates@.len() ==> exists|k: slotmap::DefaultKey|
                                #[trigger] old(self).srcs@.dom().contains(k)
                                    && block_name_ends_with(old(self).srcs@[k], ef@)
                                    && block_has_name(old(self).srcs@[k], candidates@[i]@)
                        &&& forall|k: slotmap::DefaultKey|
                            #[trigger] old(self).srcs@.dom().contains(k) && block_name_ends_with(
                                old(self).srcs@[k],
                                ef@,
                            ) ==> exists|i: int|
                                0 <= i < candidates@.len() && block_has_name(
                                    old(self).srcs@[k],
                                    (#[trigger] candidates@[i])@,
                                )
                    },
                    RunError::NoDefaultEntry => entry_func is None && (trace@.len() == 0 || ({
                        let f = trace@[0].func@;
                        &&& !(text::spec_ends_with(f, "::run"@) && old(self).exists_block_named(f))
                        &&& !(text::spec_ends_with(f, "::init"@) && old(self).exists_block_named(
                            init_run_name(f),
                        ))
                    })),
                    _ => false,
                },
            },
    {
        let picked: Result<slotmap::DefaultKey, RunError> = match entry_func {
            Some(e) => {
                let hits = self.fuzzy_find_block_key(e.as_str());
                if hits.len() == 0 {
                    proof {
                        assert forall|k2: slotmap::DefaultKey|
                            #[trigger] self.srcs@.dom().contains(k2) implies !block_name_ends_with(
                            self.srcs@[k2],
                            e@,
                        ) by {
                            if block_name_ends_with(self.srcs@[k2], e@) {
                                assert(hits@.contains(k2));
                            }
                        }
                    }
                    Err(RunError::EntryNotFound { requested: e.clone() })
                } else if hits.len() == 1 {
                    proof {
                        assert forall|k2: slotmap::DefaultKey|
                            #[trigger] self.srcs@.dom().contains(k2) && block_name_ends_with(
                            self.srcs@[k2],
                            e@,
                        ) implies k2 == hits@[0] by {
                            assert(hits@.contains(k2));
                            let j = choose|j: int| 0 <= j < hits@.len() && hits@[j] == k2;
                            assert(j == 0);
                        }
                    }
                    Ok(hits[0])
                } else {
                    proof {
                        assert(self.srcs@.dom().contains(hits@[0]) && block_name_ends_with(
                            self.srcs@[hits@[0]],
                            e@,
                        ));
                        assert(self.srcs@.dom().contains(hits@[1]) && block_name_ends_with(
                            self.srcs@[hits@[1]],
                            e@,
                        ));
                        assert(hits@[0] != hits@[1]);
                    }
                    let candidates = self.collect_entry_candidates(&hits, e.as_str());
                    proof {
                        assert forall|i2: int| #![trigger candidates@[i2]] 0 <= i2
                            < candidates@.len() implies exists|k: slotmap::DefaultKey|
                            #[trigger] self.srcs@.dom().contains(k) && block_name_ends_with(
                                self.srcs@[k],
                                e@,
                            ) && block_has_name(self.srcs@[k], candidates@[i2]@) by {
                            assert(self.srcs@.dom().contains(hits@[i2])
                                && block_name_ends_with(self.srcs@[hits@[i2]], e@)
                                && block_has_name(self.srcs@[hits@[i2]], candidates@[i2]@));
                        }
                        assert forall|k: slotmap::DefaultKey|
                            #[trigger] self.srcs@.dom().contains(k) && block_name_ends_with(
                            self.srcs@[k],
                            e@,
                        ) implies exists|i2: int|
                            0 <= i2 < candidates@.len() && block_has_name(
                                self.srcs@[k],
                                (#[trigger] candidates@[i2])@,
                            ) by {
                            assert(hits@.contains(k));
                            let j = choose|j: int| 0 <= j < hits@.len() && hits@[j] == k;
                            assert(block_has_name(self.srcs@[hits@[j]], candidates@[j]@));
                            assert(0 <= j < candidates@.len() && block_has_name(
                                self.srcs@[k],
                                candidates@[j]@,
                            ));
                        }
                    }
                    Err(RunError::EntryAmbiguous { candidates })
                }
            },
            None => {
                match self.get_entry_func_block_key(trace) {
                    Some(k) => Ok(k),
                    None => Err(RunError::NoDefaultEntry),
                }
            },
        };
        match picked {
            Ok(k) => {
                if let Some(n) = self.srcs.get(k).name() {
                    let name = n.clone();
                    self.src_block_key = k;
                    Ok(name)
                } else {
                    Err(RunError::NoFunctionName)
                }
            },
            Err(e) => Err(e),
        }
    }

    /// The full names of every block whose name ends with the requested
    /// entry suffix, for the ambiguous-entry report.
    fn collect_entry_candidates(&self, hits: &Vec<slotmap::DefaultKey>, e: &str) -> (candidates:
        Vec<String>)
        requires
            forall|j: int|
                0 <= j < hits@.len() ==> self.srcs@.dom().contains(#[trigger] hits@[j])
                    && block_name_ends_with(self.srcs@[hits@[j]], e@),
            forall|k: slotmap::DefaultKey|
                #[trigger] self.srcs@.dom().contains(k) && block_name_ends_with(
                    self.srcs@[k],
                    e@,
                ) ==> hits@.contains(k),
        ensures
            candidates@.len() == hits@.len(),
            forall|j: int|
                #![trigger candidates@[j]]
                0 <= j < hits@.len() ==> block_has_name(self.srcs@[hits@[j]], candidates@[j]@),
    {
        let mut candidates: Vec<String> = Vec::new();
        let mut i: usize = 0;
        while i < hits.len()
            invariant
                i <= hits@.len(),
                candidates@.len() == i,
                forall|j: int|
                    0 <= j < hits@.len() ==> self.srcs@.dom().contains(#[trigger] hits@[j])
                        && block_name_ends_with(self.srcs@[hits@[j]], e@),
                forall|j: int|
                    0 <= j < i ==> block_has_name(
                        self.srcs@[hits@[j]],
                        (#[trigger] candidates@[j])@,
                    ),
            decreases hits@.len() - i,
        {
            match self.srcs.get(hits[i]).name() {
                Some(n) => {
                    candidates.push(n.clone());
                },
                None => {
                    proof {
                        assert(false);
                    }
                    unreached()
                },
            }
            i = i + 1;
        }
        candidates
    }

    /// Infers the default entry from the first traced function: that function
    /// itself when its name ends in `::run`; the sibling `::run` when it ends
    /// in `::init`; nothing otherwise.
    pub fn get_entry_func_block_key(&self, trace: &Vec<Trace>) -> (r: Option<slotmap::DefaultKey>)
        ensures
            match r {
                Some(k) => trace@.len() > 0 && self.srcs@.dom().contains(k) && ({
                    let f = trace@[0].func@;
                    if text::spec_ends_with(f, "::run"@) && self.exists_block_named(f) {
                        block_has_name(self.srcs@[k], f)
                    } else if text::spec_ends_with(f, "::init"@) && self.exists_block_named(
                        init_run_name(f),
                    ) {
                        block_has_name(self.srcs@[k], init_run_name(f))
                    } else {
                        false
                    }
                }),
                None => trace@.len() == 0 || ({
                    let f = trace@[0].func@;
                    &&& !(text::spec_ends_with(f, "::run"@) && self.exists_block_named(f))
                    &&& !(text::spec_ends_with(f, "::init"@) && self.exists_block_named(
                        init_run_name(f),
                    ))
                }),
            },
    {
        if trace.len() == 0 {
            return None;
        }
        let f: &String = &trace[0].func;
        proof {
            reveal_strlit("::run");
            reveal_strlit("::init");
        }
        if text::ends_with(f.as_str(), "::run") {
            if let Some(k) = self.find_block_key(f.as_str()) {
                return Some(k);
            }
        }
        if text::ends_with(f.as_str(), "::init") {
            let n = f.as_str().unicode_len();
            let base = f.as_str().substring_char(0, n - 6);
            let mut candidate = String::from_str(base);
            candidate.append("::run");
            proof {
                assert(candidate@ == init_run_name(f@));
            }
            if let Some(k) = self.find_block_key(candidate.as_str()) {
                return Some(k);
            }
        }
        None
    }
}

} // verus!

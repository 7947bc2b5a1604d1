use vstd::prelude::*;

verus! {

/// One source-level instruction: either a plain opcode with an optional
/// literal argument, or a two-way conditional branch whose arms are blocks
/// stored in the arena and referenced by their keys.
pub enum Op {
    Op { opcode: String, arg: Option<String> },
    Conditional(slotmap::DefaultKey, slotmap::DefaultKey),
}

impl Op {
    /// The opcode of a plain op; a conditional has none.
    pub fn opcode(&self) -> (r: Option<&String>)
        ensures
            match self {
                Op::Op { opcode, .. } => r == Some(opcode),
                Op::Conditional(..) => r is None,
            },
    {
        if let Op::Op { opcode, .. } = self {
            Some(opcode)
        } else {
            None
        }
    }
}

/// True exactly when both ops are plain and have the same opcode and the same
/// (optional) argument. A conditional never matches anything: the trace only
/// ever carries plain ops.
pub open spec fn op_matches_spec(a: Op, b: Op) -> bool {
    match (a, b) {
        (Op::Op { opcode: oa, arg: aa }, Op::Op { opcode: ob, arg: ab }) => {
            oa@ == ob@ && match (aa, ab) {
                (Some(x), Some(y)) => x@ == y@,
                (None, None) => true,
                _ => false,
            }
        },
        _ => false,
    }
}

/// Structural comparison of a source op against a trace op.
pub fn op_matches(a: &Op, b: &Op) -> (r: bool)
    ensures
        r == op_matches_spec(*a, *b),
{
    match (a, b) {
        (Op::Op { opcode: oa, arg: aa }, Op::Op { opcode: ob, arg: ab }) => {
            if !oa.eq(ob) {
                false
            } else {
                match (aa, ab) {
                    (Some(x), Some(y)) => x.eq(y),
                    (None, None) => true,
                    _ => false,
                }
            }
        },
        _ => false,
    }
}

/// A named procedure body or an anonymous branch arm: an ordered run of ops.
pub struct Block {
    pub name: Option<String>,
    pub ops: Vec<Op>,
}

impl Block {
    pub fn new(name: String, ops: Vec<Op>) -> (r: Block)
        ensures
            r.name == Some(name),
            r.ops == ops,
    {
        Block { name: Some(name), ops }
    }

    pub fn bare(ops: Vec<Op>) -> (r: Block)
        ensures
            r.name is None,
            r.ops == ops,
    {
        Block { name: None, ops }
    }

    /// Prefixes the module path onto the block's bare name, once the module it
    /// belongs to is known; anonymous blocks are left alone.
    pub fn prefix_module_name(&mut self, module_name: &str)
        ensures
            final(self).ops == old(self).ops,
            match old(self).name {
                Some(n) => final(self).name matches Some(m)
                    && m@ == module_name@ + "::"@ + n@,
                None => final(self).name is None,
            },
    {
        proof {
            reveal_strlit("::");
        }
        if let Some(n) = &self.name {
            let mut prefixed = String::from_str(module_name);
            prefixed.append("::");
            prefixed.append(n.as_str());
            self.name = Some(prefixed);
        }
    }

    pub fn name(&self) -> (r: Option<&String>)
        ensures
            match self.name {
                Some(_) => r matches Some(n) && self.name == Some(*n),
                None => r is None,
            },
    {
        self.name.as_ref()
    }

    pub fn op_at(&self, idx: usize) -> (r: &Op)
        requires
            idx < self.ops@.len(),
        ensures
            *r == self.ops@[idx as int],
    {
        &self.ops[idx]
    }

    pub fn len(&self) -> (r: usize)
        ensures
            r == self.ops@.len(),
    {
        self.ops.len()
    }
}

#[verifier::external_type_specification]
#[verifier::external_body]
pub struct ExDefaultKey(slotmap::DefaultKey);

/// The arena every block of one run lives in; blocks are reached only through
/// the opaque keys handed out at insertion. The slot map inside is hidden from
/// the verifier: everything known about it goes through `arena_view` and the
/// trusted methods below.
#[verifier::external_body]
pub struct SourceBlocks {
    map: slotmap::SlotMap<slotmap::DefaultKey, Block>,
}

/// What the arena holds: the block stored under each currently-valid key.
pub uninterp spec fn arena_view(m: SourceBlocks) -> Map<slotmap::DefaultKey, Block>;

impl View for SourceBlocks {
    type V = Map<slotmap::DefaultKey, Block>;

    open spec fn view(&self) -> Map<slotmap::DefaultKey, Block> {
        arena_view(*self)
    }
}

/// Relies on slotmap::DefaultKey's Default impl: the null key, whose index
/// u32::MAX no slot can ever occupy (insertion panics before the map grows
/// that far), so it is under no arena's keys. It fills the sentinel
/// call-stack frame and the not-yet-entered current-block slot.
#[verifier::external_body]
pub fn null_key() -> (r: slotmap::DefaultKey)
    ensures
        forall|m: SourceBlocks| !arena_view(m).dom().contains(r),
{
    slotmap::DefaultKey::default()
}

impl SourceBlocks {
    /// Relies on slotmap::SlotMap::new: constructs an empty map.
    #[verifier::external_body]
    pub fn new() -> (r: SourceBlocks)
        ensures
            arena_view(r).dom() == Set::<slotmap::DefaultKey>::empty(),
    {
        SourceBlocks { map: slotmap::SlotMap::new() }
    }

    /// Relies on slotmap::SlotMap::insert: the value is stored in a slot that
    /// was free, so its key is not currently present, and every other entry is
    /// untouched. `insert` panics only when the map already holds u32::MAX - 1
    /// values; keys are never removed here, so the entry count bounds the slot
    /// count and the requires excludes that panic.
    #[verifier::external_body]
    pub fn insert(&mut self, b: Block) -> (k: slotmap::DefaultKey)
        requires
            arena_view(*old(self)).dom().len() < 0xFFFF_FFFE,
        ensures
            !arena_view(*old(self)).dom().contains(k),
            arena_view(*final(self)) == arena_view(*old(self)).insert(k, b),
    {
        self.map.insert(b)
    }

    /// Relies on slotmap::SlotMap::get: returns the value stored under a
    /// present key. Keys are never removed from this arena, so a key in the
    /// view stays valid and the unwrap cannot panic.
    #[verifier::external_body]
    pub fn get(&self, k: slotmap::DefaultKey) -> (r: &Block)
        requires
            arena_view(*self).dom().contains(k),
        ensures
            *r == arena_view(*self)[k],
    {
        self.map.get(k).unwrap()
    }

    /// Relies on slotmap::SlotMap::get_mut: a mutable reference to the value
    /// under a present key; the stored value is exchanged for the given one
    /// and the old value handed back.
    #[verifier::external_body]
    pub fn swap_block(&mut self, k: slotmap::DefaultKey, b: Block) -> (r: Block)
        requires
            arena_view(*old(self)).dom().contains(k),
        ensures
            r == arena_view(*old(self))[k],
            arena_view(*final(self)) == arena_view(*old(self)).insert(k, b),
    {
        core::mem::replace(self.map.get_mut(k).unwrap(), b)
    }

    /// Relies on slotmap::SlotMap::len: the number of stored values.
    #[verifier::external_body]
    pub fn len(&self) -> (r: usize)
        ensures
            r == arena_view(*self).dom().len(),
    {
        self.map.len()
    }

    /// Relies on slotmap::SlotMap::contains_key: whether the key's slot is
    /// occupied under a matching version, i.e. whether the key is current.
    #[verifier::external_body]
    pub fn contains_key(&self, k: slotmap::DefaultKey) -> (r: bool)
        ensures
            r == arena_view(*self).dom().contains(k),
    {
        self.map.contains_key(k)
    }

    /// Relies on slotmap::SlotMap::keys: yields the key of every stored value
    /// exactly once (in unspecified order).
    #[verifier::external_body]
    pub fn keys(&self) -> (r: Vec<slotmap::DefaultKey>)
        ensures
            r@.len() == arena_view(*self).dom().len(),
            forall|i: int|
                0 <= i < r@.len() ==> arena_view(*self).dom().contains(#[trigger] r@[i]),
            forall|k: slotmap::DefaultKey|
                arena_view(*self).dom().contains(k) ==> r@.contains(k),
            forall|i: int, j: int| 0 <= i < j < r@.len() ==> r@[i] != r@[j],
    {
        self.map.keys().collect()
    }
}

} // verus!

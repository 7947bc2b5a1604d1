use vstd::prelude::*;

use std::collections::HashMap;

verus! {

broadcast use vstd::std_specs::hash::group_hash_axioms;

/// The advisory address-to-value map built from the load and store events
/// seen in the trace. It never blocks progress: the worst it produces is a
/// warning that a load disagrees with what was last recorded.
pub struct MemShadow {
    pub map: HashMap<u64, u64>,
}

impl View for MemShadow {
    type V = Map<u64, u64>;

    open spec fn view(&self) -> Map<u64, u64> {
        self.map@
    }
}

impl MemShadow {
    pub fn new() -> (r: MemShadow)
        ensures
            r@ == Map::<u64, u64>::empty(),
    {
        MemShadow { map: HashMap::new() }
    }

    /// Records a load of `loaded` at `addr`. The first observation of an
    /// address always wins and creates its entry; a load that agrees with
    /// the recorded value passes silently; a disagreeing load returns the
    /// recorded value as a warning, exactly once, and leaves the shadow
    /// unchanged.
    pub fn observe_load(&mut self, addr: u64, loaded: u64) -> (warn: Option<u64>)
        ensures
            !old(self)@.dom().contains(addr) ==> final(self)@ == old(self)@.insert(addr, loaded)
                && warn is None,
            old(self)@.dom().contains(addr) && old(self)@[addr] == loaded ==> final(self)@ == old(
                self,
            )@ && warn is None,
            old(self)@.dom().contains(addr) && old(self)@[addr] != loaded ==> final(self)@ == old(
                self,
            )@ && warn == Some(old(self)@[addr]),
    {
        match self.map.get(&addr) {
            Some(stored) => {
                if *stored != loaded {
                    Some(*stored)
                } else {
                    None
                }
            },
            None => {
                self.map.insert(addr, loaded);
                None
            },
        }
    }

    /// Records a store of `val` at `addr`, unconditionally overwriting.
    pub fn store(&mut self, addr: u64, val: u64)
        ensures
            final(self)@ == old(self)@.insert(addr, val),
    {
        self.map.insert(addr, val);
    }

    /// The value last recorded at `addr`, if any.
    pub fn lookup(&self, addr: u64) -> (r: Option<u64>)
        ensures
            match r {
                Some(v) => self@.dom().contains(addr) && self@[addr] == v,
                None => !self@.dom().contains(addr),
            },
    {
        match self.map.get(&addr) {
            Some(v) => Some(*v),
            None => None,
        }
    }
}

} // verus!

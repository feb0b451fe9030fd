//! The counters that hand out the numbers of handles.

use vstd::prelude::*;

verus! {

/// The number behind a value handle.
pub type ValueId = u64;

/// The number behind a basic block handle.
pub type BasicBlockId = u64;

/// The number behind a function handle.
pub type FunctionId = u64;

/// Three independent counters that hand out the numbers of values, basic
/// blocks and functions. A number is handed out once: the counters only rise,
/// and a counter that has reached its end hands out nothing more.
pub struct IdAllocator {
    next_value: ValueId,
    next_bb: BasicBlockId,
    next_func: FunctionId,
}

impl IdAllocator {
    /// The number the next value will get.
    pub closed spec fn value_bound(&self) -> nat {
        self.next_value as nat
    }

    /// The number the next basic block will get.
    pub closed spec fn bb_bound(&self) -> nat {
        self.next_bb as nat
    }

    /// The number the next function will get.
    pub closed spec fn func_bound(&self) -> nat {
        self.next_func as nat
    }

    /// No counter is beyond its end.
    pub proof fn lemma_bounds(&self)
        ensures
            self.value_bound() <= u64::MAX,
            self.bb_bound() <= u64::MAX,
            self.func_bound() <= u64::MAX,
    {
    }

    /// Creates counters that have handed out nothing.
    pub fn new() -> (r: IdAllocator)
        ensures
            r.value_bound() == 0,
            r.bb_bound() == 0,
            r.func_bound() == 0,
    {
        IdAllocator { next_value: 0, next_bb: 0, next_func: 0 }
    }

    /// Creates counters that hand out the given numbers next.
    pub fn starting_at(next_value: ValueId, next_bb: BasicBlockId, next_func: FunctionId) -> (r:
        IdAllocator)
        ensures
            r.value_bound() == next_value,
            r.bb_bound() == next_bb,
            r.func_bound() == next_func,
    {
        IdAllocator { next_value, next_bb, next_func }
    }

    /// Whether a further value number can be handed out.
    pub fn has_value_id(&self) -> (r: bool)
        ensures
            r == (self.value_bound() < u64::MAX),
    {
        self.next_value < u64::MAX
    }

    /// Whether `n` further value numbers can be handed out.
    pub fn has_value_ids(&self, n: usize) -> (r: bool)
        ensures
            r == (self.value_bound() + n <= u64::MAX),
    {
        (n as u64) <= u64::MAX - self.next_value
    }

    /// Whether a further basic block number can be handed out.
    pub fn has_bb_id(&self) -> (r: bool)
        ensures
            r == (self.bb_bound() < u64::MAX),
    {
        self.next_bb < u64::MAX
    }

    /// Hands out the number of a new value, or nothing when the counter is at
    /// its end.
    pub fn next_value_id(&mut self) -> (r: Option<ValueId>)
        ensures
            final(self).bb_bound() == old(self).bb_bound(),
            final(self).func_bound() == old(self).func_bound(),
            match r {
                Some(id) => id < u64::MAX && id == old(self).value_bound() && final(self).value_bound()
                    == id + 1,
                None => old(self).value_bound() == u64::MAX && *final(self) == *old(self),
            },
    {
        if self.next_value == u64::MAX {
            None
        } else {
            let id = self.next_value;
            self.next_value = id + 1;
            Some(id)
        }
    }

    /// Hands out the number of a new basic block, or nothing when the counter
    /// is at its end.
    pub fn next_bb_id(&mut self) -> (r: Option<BasicBlockId>)
        ensures
            final(self).value_bound() == old(self).value_bound(),
            final(self).func_bound() == old(self).func_bound(),
            match r {
                Some(id) => id < u64::MAX && id == old(self).bb_bound() && final(self).bb_bound() == id
                    + 1,
                None => old(self).bb_bound() == u64::MAX && *final(self) == *old(self),
            },
    {
        if self.next_bb == u64::MAX {
            None
        } else {
            let id = self.next_bb;
            self.next_bb = id + 1;
            Some(id)
        }
    }

    /// Hands out the number of a new function, or nothing when the counter is
    /// at its end.
    pub fn next_func_id(&mut self) -> (r: Option<FunctionId>)
        ensures
            final(self).value_bound() == old(self).value_bound(),
            final(self).bb_bound() == old(self).bb_bound(),
            match r {
                Some(id) => id < u64::MAX && id == old(self).func_bound() && final(self).func_bound()
                    == id + 1,
                None => old(self).func_bound() == u64::MAX && *final(self) == *old(self),
            },
    {
        if self.next_func == u64::MAX {
            None
        } else {
            let id = self.next_func;
            self.next_func = id + 1;
            Some(id)
        }
    }
}

/// The number of an interner. It cannot be copied, and making the interner
/// uses it up: a number that a counter handed out belongs to one interner.
pub struct InternerId {
    number: u64,
}

impl InternerId {
    /// The number.
    pub closed spec fn number(&self) -> u64 {
        self.number
    }

    /// Gives the number up.
    pub(crate) fn into_number(self) -> (r: u64)
        ensures
            r == self.number(),
    {
        self.number
    }
}

/// The counter that hands out the numbers of interners. It hands out no
/// number twice, so interners whose numbers come from one counter are told
/// apart by their numbers, and so are their handles. A program that keeps
/// one counter for all its interners has them all isolated.
pub struct InternerIds {
    next: u64,
}

impl InternerIds {
    /// The number the next interner will get.
    pub closed spec fn bound(&self) -> nat {
        self.next as nat
    }

    /// Creates a counter that has handed out nothing.
    pub fn new() -> (r: InternerIds)
        ensures
            r.bound() == 0,
    {
        InternerIds { next: 0 }
    }

    /// Hands out the number of a new interner, or nothing when the counter is
    /// at its end.
    pub fn next_id(&mut self) -> (r: Option<InternerId>)
        ensures
            match r {
                Some(id) => {
                    &&& id.number() < u64::MAX
                    &&& id.number() == old(self).bound()
                    &&& final(self).bound() == id.number() + 1
                },
                None => old(self).bound() == u64::MAX && *final(self) == *old(self),
            },
    {
        if self.next == u64::MAX {
            None
        } else {
            let number = self.next;
            self.next = number + 1;
            Some(InternerId { number })
        }
    }
}

} // verus!

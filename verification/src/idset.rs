//! Small deduplicating sets over output identifiers and addresses, kept as
//! vectors whose elements are unique; insertion is the deduplication gate.

use vstd::prelude::*;

use crate::output::Address;
use crate::output::OutputId;

verus! {

/// A set of output identifiers; no identifier appears twice.
pub struct OutputIdSet {
    items: Vec<OutputId>,
}

impl View for OutputIdSet {
    type V = Seq<OutputId>;

    closed spec fn view(&self) -> Seq<OutputId> {
        self.items@
    }
}

impl OutputIdSet {
    /// No identifier appears twice.
    pub open spec fn wf(self) -> bool {
        forall|i: int, j: int| 0 <= i < self@.len() && 0 <= j < self@.len() && i != j ==> self@[i]
            != self@[j]
    }

    /// An empty set.
    pub fn new() -> (r: Self)
        ensures
            r@ == Seq::<OutputId>::empty(),
            r.wf(),
    {
        OutputIdSet { items: Vec::new() }
    }

    /// How many identifiers the set holds.
    pub fn len(&self) -> (n: usize)
        ensures
            n == self@.len(),
    {
        self.items.len()
    }

    /// Whether the set holds the identifier.
    pub fn contains(&self, id: OutputId) -> (r: bool)
        ensures
            r == self@.contains(id),
    {
        let n = self.items.len();
        let mut i: usize = 0;
        while i < n
            invariant
                n == self@.len(),
                i <= n,
                forall|k: int| 0 <= k < i ==> self@[k] != id,
            decreases n - i,
        {
            if self.items[i] == id {
                return true;
            }
            i = i + 1;
        }
        false
    }

    /// Inserts the identifier; a no-op when it is already present.
    pub fn insert(&mut self, id: OutputId) -> (added: bool)
        requires
            old(self).wf(),
        ensures
            final(self).wf(),
            added == !old(self)@.contains(id),
            final(self)@ == if old(self)@.contains(id) {
                old(self)@
            } else {
                old(self)@.push(id)
            },
    {
        if self.contains(id) {
            false
        } else {
            self.items.push(id);
            true
        }
    }
}

/// A set of addresses; no address appears twice.
pub struct AddressSet {
    items: Vec<Address>,
}

impl View for AddressSet {
    type V = Seq<Address>;

    closed spec fn view(&self) -> Seq<Address> {
        self.items@
    }
}

impl AddressSet {
    /// No address appears twice.
    pub open spec fn wf(self) -> bool {
        forall|i: int, j: int| 0 <= i < self@.len() && 0 <= j < self@.len() && i != j ==> self@[i]
            != self@[j]
    }

    /// An empty set.
    pub fn new() -> (r: Self)
        ensures
            r@ == Seq::<Address>::empty(),
            r.wf(),
    {
        AddressSet { items: Vec::new() }
    }

    /// Whether the set holds the address.
    pub fn contains(&self, a: Address) -> (r: bool)
        ensures
            r == self@.contains(a),
    {
        let n = self.items.len();
        let mut i: usize = 0;
        while i < n
            invariant
                n == self@.len(),
                i <= n,
                forall|k: int| 0 <= k < i ==> self@[k] != a,
            decreases n - i,
        {
            if self.items[i] == a {
                return true;
            }
            i = i + 1;
        }
        false
    }

    /// Inserts the address; a no-op when it is already present.
    pub fn insert(&mut self, a: Address) -> (added: bool)
        requires
            old(self).wf(),
        ensures
            final(self).wf(),
            added == !old(self)@.contains(a),
            final(self)@ == if old(self)@.contains(a) {
                old(self)@
            } else {
                old(self)@.push(a)
            },
    {
        if self.contains(a) {
            false
        } else {
            self.items.push(a);
            true
        }
    }
}

} // verus!

//! Which entries are being indexed right now.
//!
//! The chunks of an entry are replaced as a whole. Two such runs for one
//! entry must not overlap, so a run is let in only while no other run for
//! the same entry is under way.

use vstd::prelude::*;

verus! {

/// The entries that are being indexed.
pub struct IndexingGate {
    busy: Vec<String>,
}

impl IndexingGate {
    /// The ids held in `busy`, in their order.
    pub closed spec fn ids(&self) -> Seq<Seq<char>> {
        Seq::new(self.busy@.len(), |i: int| self.busy@[i]@)
    }

    /// No entry is held twice. Every gate that `new` has made and that
    /// the methods have worked on is so.
    pub closed spec fn well_formed(&self) -> bool {
        self.ids().no_duplicates()
    }

    /// The ids of the entries that are being indexed.
    pub closed spec fn view(&self) -> Set<Seq<char>> {
        self.ids().to_set()
    }

    /// A gate through which no entry has passed yet.
    pub fn new() -> (gate: IndexingGate)
        ensures
            gate.well_formed(),
            gate@ == Set::<Seq<char>>::empty(),
    {
        let gate = IndexingGate { busy: Vec::new() };
        assert(gate.ids() =~= Seq::<Seq<char>>::empty());
        assert(gate.ids().to_set() =~= Set::<Seq<char>>::empty());
        gate
    }

    /// Finds the place at which `entry_id` is held.
    fn position(&self, entry_id: &str) -> (place: Option<usize>)
        ensures
            match place {
                Some(at) => at < self.ids().len() && self.ids()[at as int] == entry_id@,
                None => !self.ids().contains(entry_id@),
            },
    {
        let wanted = String::from_str(entry_id);
        let mut i: usize = 0;
        while i < self.busy.len()
            invariant
                i <= self.busy@.len(),
                wanted@ == entry_id@,
                forall|k: int| 0 <= k < i ==> self.ids()[k] != entry_id@,
            decreases self.busy@.len() - i,
        {
            if self.busy[i] == wanted {
                return Some(i);
            }
            i += 1;
        }
        None
    }

    /// Tells whether `entry_id` is being indexed.
    pub fn is_busy(&self, entry_id: &str) -> (busy: bool)
        ensures
            busy == self@.contains(entry_id@),
    {
        self.position(entry_id).is_some()
    }

    /// Asks to index `entry_id`. The run is let in unless another run for
    /// the same entry is under way; from then on it is under way until it
    /// leaves.
    pub fn enter(&mut self, entry_id: &str) -> (entered: bool)
        requires
            old(self).well_formed(),
        ensures
            final(self).well_formed(),
            entered == !old(self)@.contains(entry_id@),
            final(self)@ == old(self)@.insert(entry_id@),
    {
        match self.position(entry_id) {
            Some(at) => {
                proof {
                    assert(self@.contains(entry_id@));
                    assert(self@.insert(entry_id@) =~= self@);
                }
                false
            },
            None => {
                let ghost before = self.ids();
                self.busy.push(String::from_str(entry_id));
                proof {
                    assert(self.ids() =~= before.push(entry_id@));
                    assert forall|a: int, b: int|
                        0 <= a < self.ids().len() && 0 <= b < self.ids().len() && a
                            != b implies self.ids()[a] != self.ids()[b] by {
                        if a < before.len() && b < before.len() {
                            assert(before[a] != before[b]);
                        } else if a < before.len() {
                            assert(before.contains(before[a]));
                        } else {
                            assert(before.contains(before[b]));
                        }
                    }
                    assert forall|id: Seq<char>| self.ids().contains(id) <==> before.to_set().insert(
                        entry_id@,
                    ).contains(id) by {
                        if self.ids().contains(id) {
                            let k = choose|k: int| 0 <= k < self.ids().len() && self.ids()[k] == id;
                            if k < before.len() {
                                assert(before[k] == id);
                            }
                        }
                        if before.contains(id) {
                            let k = choose|k: int| 0 <= k < before.len() && before[k] == id;
                            assert(self.ids()[k] == id);
                        }
                        if id == entry_id@ {
                            assert(self.ids()[before.len() as int] == id);
                        }
                    }
                    assert(self.ids().to_set() =~= before.to_set().insert(entry_id@));
                }
                true
            },
        }
    }

    /// Marks the run for `entry_id` as done. An entry that is not being
    /// indexed is passed over.
    pub fn leave(&mut self, entry_id: &str)
        requires
            old(self).well_formed(),
        ensures
            final(self).well_formed(),
            final(self)@ == old(self)@.remove(entry_id@),
    {
        match self.position(entry_id) {
            Some(at) => {
                let ghost before = self.ids();
                self.busy.remove(at);
                proof {
                    assert(self.ids() =~= before.remove(at as int));
                    assert forall|a: int, b: int|
                        0 <= a < self.ids().len() && 0 <= b < self.ids().len() && a
                            != b implies self.ids()[a] != self.ids()[b] by {
                        let a0 = if a < at { a } else { a + 1 };
                        let b0 = if b < at { b } else { b + 1 };
                        assert(self.ids()[a] == before[a0] && self.ids()[b] == before[b0]);
                    }
                    assert forall|id: Seq<char>| self.ids().contains(id) <==> before.to_set().remove(
                        entry_id@,
                    ).contains(id) by {
                        if self.ids().contains(id) {
                            let k = choose|k: int| 0 <= k < self.ids().len() && self.ids()[k] == id;
                            let k0 = if k < at { k } else { k + 1 };
                            assert(before[k0] == id);
                            assert(k0 != at);
                        }
                        if before.contains(id) && id != entry_id@ {
                            let k = choose|k: int| 0 <= k < before.len() && before[k] == id;
                            let k1 = if k < at { k } else { k - 1 };
                            assert(self.ids()[k1] == id);
                        }
                    }
                    assert(self.ids().to_set() =~= before.to_set().remove(entry_id@));
                }
            },
            None => {
                proof {
                    assert(self@.remove(entry_id@) =~= self@);
                }
            },
        }
    }
}

} // verus!

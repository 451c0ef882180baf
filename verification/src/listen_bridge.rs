//! The listen half of the event bridge: the mapping from host event name to
//! live subscription handle, owned privately by the loop that consumes
//! listen messages and mutated nowhere else.  Handles and callback tokens
//! are opaque numbers minted by the embedding application.

use crate::descriptors::{
    lemma_store_at_unique, store_distinct, store_has, store_insert, store_remove, store_val,
};
use vstd::prelude::*;

verus! {

/// The table of live host subscriptions, keyed by event name.
pub struct ListenerTable {
    entries: Vec<(String, u64)>,
}

impl View for ListenerTable {
    type V = Seq<(Seq<char>, u64)>;

    closed spec fn view(&self) -> Seq<(Seq<char>, u64)> {
        self.entries@.map_values(|p: (String, u64)| (p.0@, p.1))
    }
}

impl ListenerTable {
    /// Well-formed: one live handle per event name.
    pub open spec fn wf(&self) -> bool {
        store_distinct(self@)
    }

    /// An empty table.
    pub fn new() -> (r: ListenerTable)
        ensures
            r.wf(),
            r@ == Seq::<(Seq<char>, u64)>::empty(),
    {
        let r = ListenerTable { entries: Vec::new() };
        proof {
            assert(r@ =~= Seq::<(Seq<char>, u64)>::empty());
        }
        r
    }

    /// The index of the entry under this event name, if any.
    fn find(&self, event: &String) -> (r: Option<usize>)
        ensures
            match r {
                Some(j) => j < self@.len() && self@[j as int].0 == event@,
                None => !store_has(self@, event@),
            },
    {
        let mut i: usize = 0;
        while i < self.entries.len()
            invariant
                i <= self.entries@.len(),
                forall|j: int| 0 <= j < i ==> (#[trigger] self.entries@[j]).0@ != event@,
            decreases self.entries@.len() - i,
        {
            if self.entries[i].0 == *event {
                return Some(i);
            }
            i = i + 1;
        }
        proof {
            assert forall|j: int| 0 <= j < self@.len() implies (#[trigger] self@[j]).0
                != event@ by {
                assert(self@[j].0 == self.entries@[j].0@);
            }
        }
        None
    }

    /// The handle tracked for this event name, if any.
    pub fn handle_of(&self, event: &String) -> (r: Option<u64>)
        requires
            self.wf(),
        ensures
            match r {
                Some(h) => store_has(self@, event@) && h == store_val(self@, event@),
                None => !store_has(self@, event@),
            },
    {
        match self.find(event) {
            Some(j) => {
                proof {
                    lemma_store_at_unique(self@, event@, j as int);
                }
                Some(self.entries[j].1)
            },
            None => None,
        }
    }

    /// Tracks the newest subscription handle for an event name.  Where a
    /// handle was already tracked it is handed back: re-subscribing
    /// replaces the tracked handle, and whoever drops the returned one
    /// without cancelling it leaks that subscription.
    pub fn record(&mut self, event: String, handle: u64) -> (r: Option<u64>)
        requires
            old(self).wf(),
        ensures
            final(self).wf(),
            final(self)@ == store_insert(old(self)@, event@, handle),
            match r {
                Some(h) => store_has(old(self)@, event@) && h == store_val(old(self)@, event@),
                None => !store_has(old(self)@, event@),
            },
    {
        match self.find(&event) {
            Some(j) => {
                proof {
                    lemma_store_at_unique(self@, event@, j as int);
                }
                let previous = self.entries[j].1;
                self.entries.set(j, (event, handle));
                proof {
                    assert(self@ =~= store_insert(old(self)@, event@, handle));
                }
                Some(previous)
            },
            None => {
                self.entries.push((event, handle));
                proof {
                    assert(self@ =~= store_insert(old(self)@, event@, handle));
                }
                None
            },
        }
    }

    /// Stops tracking an event name, handing back the handle to cancel; an
    /// unknown name changes nothing.
    pub fn take(&mut self, event: &String) -> (r: Option<u64>)
        requires
            old(self).wf(),
        ensures
            final(self).wf(),
            match r {
                Some(h) => {
                    &&& store_has(old(self)@, event@)
                    &&& h == store_val(old(self)@, event@)
                    &&& final(self)@ == store_remove(old(self)@, event@)
                },
                None => {
                    &&& !store_has(old(self)@, event@)
                    &&& final(self)@ == old(self)@
                },
            },
    {
        match self.find(event) {
            Some(j) => {
                proof {
                    lemma_store_at_unique(self@, event@, j as int);
                }
                let entry = self.entries.remove(j);
                proof {
                    assert(self@ =~= old(self)@.remove(j as int));
                }
                Some(entry.1)
            },
            None => None,
        }
    }
}

} // verus!

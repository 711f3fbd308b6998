//! The transactions whose events have not all been seen.

use vstd::prelude::*;

use crate::source::types::Timestamp;
use crate::text::same_text;

verus! {

/// A transaction whose end has been read, and some of whose events have not.
pub struct OpenTransaction {
    pub tx_id: String,
    /// The time of the capability with which the events are sent.
    pub cap: Timestamp,
    /// How many events are still to come.
    pub event_count: i64,
}

/// The transactions whose events have not all been seen.
pub struct OpenTransactions {
    /// Each transaction occurs at most once.
    pub entries: Vec<OpenTransaction>,
}

impl View for OpenTransactions {
    type V = Map<Seq<char>, (Timestamp, i64)>;

    /// The time of the capability and the count of events to come, of each transaction.
    open spec fn view(&self) -> Map<Seq<char>, (Timestamp, i64)> {
        Map::new(
            |tx_id: Seq<char>|
                exists|i: int|
                    0 <= i < self.entries@.len() && #[trigger] self.entries@[i].tx_id@ == tx_id,
            |tx_id: Seq<char>|
                {
                    let i = choose|i: int|
                        0 <= i < self.entries@.len() && #[trigger] self.entries@[i].tx_id@ == tx_id;
                    (self.entries@[i].cap, self.entries@[i].event_count)
                },
        )
    }
}

impl OpenTransactions {
    /// Each transaction occurs at most once.
    pub open spec fn wf(&self) -> bool {
        forall|i: int, j: int|
            0 <= i < j < self.entries@.len() ==> #[trigger] self.entries@[i].tx_id@
                != #[trigger] self.entries@[j].tx_id@
    }

    /// What is known of a transaction is what its entry says.
    pub proof fn lemma_get(&self, i: int)
        requires
            0 <= i < self.entries@.len(),
            self.wf(),
        ensures
            self@.contains_key(self.entries@[i].tx_id@),
            self@[self.entries@[i].tx_id@] == (self.entries@[i].cap, self.entries@[i].event_count),
    {
    }

    /// A transaction that is known has an entry.
    proof fn lemma_has(&self, tx_id: Seq<char>) -> (i: int)
        requires
            self.wf(),
            self@.contains_key(tx_id),
        ensures
            0 <= i < self.entries@.len(),
            self.entries@[i].tx_id@ == tx_id,
    {
        choose|i: int| 0 <= i < self.entries@.len() && #[trigger] self.entries@[i].tx_id@ == tx_id
    }

    /// No transaction is open.
    pub fn new() -> (open: OpenTransactions)
        ensures
            open.wf(),
            open@ == Map::<Seq<char>, (Timestamp, i64)>::empty(),
    {
        let open = OpenTransactions { entries: Vec::new() };
        assert(open@ =~= Map::<Seq<char>, (Timestamp, i64)>::empty());
        open
    }

    /// Opens a transaction.
    pub fn open(&mut self, tx_id: String, cap: Timestamp, event_count: i64)
        requires
            old(self).wf(),
            !old(self)@.contains_key(tx_id@),
        ensures
            final(self).wf(),
            final(self)@ == old(self)@.insert(tx_id@, (cap, event_count)),
    {
        let ghost before = *self;
        self.entries.push(OpenTransaction { tx_id, cap, event_count });
        proof {
            let expected = before@.insert(tx_id@, (cap, event_count));
            let n = before.entries@.len() as int;
            assert forall|i: int, j: int|
                0 <= i < j < self.entries@.len() implies #[trigger] self.entries@[i].tx_id@
                != #[trigger] self.entries@[j].tx_id@ by {
                if j == n {
                    before.lemma_get(i);
                }
            }
            self.lemma_get(n);
            assert forall|id: Seq<char>| #[trigger] self@.dom().contains(id) implies (
            expected.dom().contains(id) && self@[id] == expected[id]) by {
                let i = self.lemma_has(id);
                self.lemma_get(i);
                if i < n {
                    before.lemma_get(i);
                }
            }
            assert forall|id: Seq<char>| #[trigger]
                expected.dom().contains(id) implies self@.dom().contains(id) by {
                if id != tx_id@ {
                    let i = before.lemma_has(id);
                    assert(self.entries@[i] == before.entries@[i]);
                    self.lemma_get(i);
                }
            }
            assert(self@ =~= expected);
        }
    }

    /// The place of a transaction.
    pub fn find(&self, tx_id: &String) -> (place: Option<usize>)
        requires
            self.wf(),
        ensures
            match place {
                Some(place) => {
                    &&& place < self.entries@.len()
                    &&& self.entries@[place as int].tx_id@ == tx_id@
                    &&& self@.contains_key(tx_id@)
                    &&& self@[tx_id@] == (
                        self.entries@[place as int].cap,
                        self.entries@[place as int].event_count,
                    )
                },
                None => !self@.contains_key(tx_id@),
            },
    {
        let mut i: usize = 0;
        while i < self.entries.len()
            invariant
                self.wf(),
                i <= self.entries@.len(),
                forall|j: int| 0 <= j < i ==> (#[trigger] self.entries@[j]).tx_id@ != tx_id@,
            decreases self.entries@.len() - i,
        {
            if same_text(&self.entries[i].tx_id, tx_id.as_str()) {
                proof {
                    self.lemma_get(i as int);
                }
                return Some(i);
            }
            i = i + 1;
        }
        None
    }

    /// Counts one event of a transaction, and closes the transaction where it was the last.
    pub fn count_event(&mut self, place: usize)
        requires
            old(self).wf(),
            place < old(self).entries@.len(),
            old(self).entries@[place as int].event_count > i64::MIN,
        ensures
            final(self).wf(),
            ({
                let entry = old(self).entries@[place as int];
                let left = (entry.event_count - 1) as i64;
                final(self)@ == if left == 0 {
                    old(self)@.remove(entry.tx_id@)
                } else {
                    old(self)@.insert(entry.tx_id@, (entry.cap, left))
                }
            }),
    {
        let ghost before = *self;
        let ghost tx_id = before.entries@[place as int].tx_id@;
        proof {
            before.lemma_get(place as int);
        }
        let left: i64 = self.entries[place].event_count - 1;
        if left == 0 {
            let _ = self.entries.remove(place);
            proof {
                let expected = before@.remove(tx_id);
                let n = place as int;
                assert forall|i: int|
                    0 <= i < self.entries@.len() implies #[trigger] self.entries@[i]
                    == before.entries@[if i < n {
                    i
                } else {
                    i + 1
                }] by {}
                assert forall|i: int, j: int|
                    0 <= i < j < self.entries@.len() implies #[trigger] self.entries@[i].tx_id@
                    != #[trigger] self.entries@[j].tx_id@ by {
                    let i0 = if i < n {
                        i
                    } else {
                        i + 1
                    };
                    let j0 = if j < n {
                        j
                    } else {
                        j + 1
                    };
                    assert(before.entries@[i0].tx_id@ != before.entries@[j0].tx_id@);
                }
                assert forall|id: Seq<char>| #[trigger] self@.dom().contains(id) implies (
                expected.dom().contains(id) && self@[id] == expected[id]) by {
                    let i = self.lemma_has(id);
                    self.lemma_get(i);
                    let i0 = if i < n {
                        i
                    } else {
                        i + 1
                    };
                    before.lemma_get(i0);
                }
                assert forall|id: Seq<char>| #[trigger]
                    expected.dom().contains(id) implies self@.dom().contains(id) by {
                    let i0 = before.lemma_has(id);
                    let i = if i0 < n {
                        i0
                    } else {
                        i0 - 1
                    };
                    assert(self.entries@[i] == before.entries@[i0]);
                    self.lemma_get(i);
                }
                assert(self@ =~= expected);
            }
        } else {
            let entry = &mut self.entries[place];
            entry.event_count = left;
            proof {
                let cap = before.entries@[place as int].cap;
                let expected = before@.insert(tx_id, (cap, left));
                assert forall|i: int|
                    0 <= i < self.entries@.len() && i != place implies #[trigger] self.entries@[i]
                    == before.entries@[i] by {}
                assert(self.wf()) by {
                    assert forall|i: int, j: int|
                        0 <= i < j < self.entries@.len() implies #[trigger] self.entries@[i].tx_id@
                        != #[trigger] self.entries@[j].tx_id@ by {
                        assert(before.entries@[i].tx_id@ != before.entries@[j].tx_id@);
                    }
                }
                assert forall|id: Seq<char>| #[trigger] self@.dom().contains(id) implies (
                expected.dom().contains(id) && self@[id] == expected[id]) by {
                    let i = self.lemma_has(id);
                    self.lemma_get(i);
                    before.lemma_get(i);
                }
                assert forall|id: Seq<char>| #[trigger]
                    expected.dom().contains(id) implies self@.dom().contains(id) by {
                    let i = before.lemma_has(id);
                    self.lemma_get(i);
                }
                assert(self@ =~= expected);
            }
        }
    }

    /// Whether a capability of a time is needed for the events of an open transaction.
    pub fn holds(&self, cap: Timestamp) -> (holds: bool)
        requires
            self.wf(),
        ensures
            holds == exists|tx_id: Seq<char>| #[trigger]
                self@.contains_key(tx_id) && self@[tx_id].0 == cap,
    {
        let mut i: usize = 0;
        while i < self.entries.len()
            invariant
                self.wf(),
                i <= self.entries@.len(),
                forall|j: int| 0 <= j < i ==> (#[trigger] self.entries@[j]).cap != cap,
            decreases self.entries@.len() - i,
        {
            proof {
                self.lemma_get(i as int);
            }
            if self.entries[i].cap == cap {
                assert(self@.contains_key(self.entries@[i as int].tx_id@));
                return true;
            }
            i = i + 1;
        }
        assert forall|tx_id: Seq<char>| #[trigger] self@.contains_key(tx_id) implies self@[tx_id].0
            != cap by {
            let i = self.lemma_has(tx_id);
            self.lemma_get(i);
        }
        false
    }
}

} // verus!

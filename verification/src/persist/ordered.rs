//! Maps that are walked in the order of their keys.

use vstd::prelude::*;

use crate::persist::batch::SeqNo;
use crate::persist::ids::{CriticalReaderId, LeasedReaderId, WriterId};

verus! {

/// Keys that are ordered by a number. Different keys have different numbers.
pub trait Ranked: View + Sized {
    spec fn rank(key: Self::V) -> nat;

    fn rank_of(&self) -> (rank: u128)
        ensures
            rank == Self::rank(self@),
    ;
}

impl View for SeqNo {
    type V = u64;

    open spec fn view(&self) -> u64 {
        self.0
    }
}

impl Ranked for SeqNo {
    open spec fn rank(key: u64) -> nat {
        key as nat
    }

    fn rank_of(&self) -> u128 {
        self.0 as u128
    }
}

/// The number that bytes stand for, the most significant byte first.
pub open spec fn be_value(bytes: Seq<u8>) -> nat
    decreases bytes.len(),
{
    if bytes.len() == 0 {
        0
    } else {
        256 * be_value(bytes.drop_last()) + bytes.last() as nat
    }
}

/// Different bytes of the same length stand for different numbers.
pub proof fn lemma_be_value_injective(a: Seq<u8>, b: Seq<u8>)
    requires
        a.len() == b.len(),
        be_value(a) == be_value(b),
    ensures
        a == b,
    decreases a.len(),
{
    if a.len() > 0 {
        lemma_be_value_injective(a.drop_last(), b.drop_last());
        assert(a =~= a.drop_last().push(a.last()));
        assert(b =~= b.drop_last().push(b.last()));
    } else {
        assert(a =~= b);
    }
}

/// Bytes of the same length are ordered as the first ones that differ.
pub proof fn lemma_be_value_order(a: Seq<u8>, b: Seq<u8>, first: int)
    requires
        a.len() == b.len(),
        0 <= first < a.len(),
        a.take(first) == b.take(first),
        a[first] < b[first],
    ensures
        be_value(a) < be_value(b),
    decreases a.len(),
{
    let front_a = a.drop_last();
    let front_b = b.drop_last();
    if first == a.len() - 1 {
        assert(front_a =~= a.take(first));
        assert(front_b =~= b.take(first));
    } else {
        assert(front_a.take(first) =~= a.take(first));
        assert(front_b.take(first) =~= b.take(first));
        lemma_be_value_order(front_a, front_b, first);
    }
}

spec fn byte_bound(len: nat) -> nat
    decreases len,
{
    if len == 0 {
        1
    } else {
        256 * byte_bound((len - 1) as nat)
    }
}

proof fn lemma_byte_bound(len: nat)
    requires
        len < 16,
    ensures
        256 * byte_bound(len) <= 0x1_0000_0000_0000_0000_0000_0000_0000_0000,
    decreases 16 - len,
{
    if len == 15 {
        assert(byte_bound(15) == 0x1_0000_0000_0000_0000_0000_0000_0000_00) by {
            reveal_with_fuel(byte_bound, 16);
        }
    } else {
        lemma_byte_bound(len + 1);
    }
}

fn read_be(bytes: &[u8; 16]) -> (n: u128)
    ensures
        n == be_value(bytes@),
{
    let mut n: u128 = 0;
    let mut i: usize = 0;
    let ghost s = bytes@;
    while i < 16
        invariant
            i <= 16,
            s == bytes@,
            s.len() == 16,
            n == be_value(s.take(i as int)),
            n < byte_bound(i as nat),
        decreases 16 - i,
    {
        proof {
            lemma_byte_bound(i as nat);
            assert(s.take(i + 1).drop_last() =~= s.take(i as int));
        }
        n = 256 * n + bytes[i] as u128;
        i = i + 1;
    }
    assert(s.take(16) =~= s);
    n
}

impl Ranked for LeasedReaderId {
    open spec fn rank(key: Seq<u8>) -> nat {
        be_value(key)
    }

    fn rank_of(&self) -> u128 {
        read_be(&self.0)
    }
}

impl Ranked for CriticalReaderId {
    open spec fn rank(key: Seq<u8>) -> nat {
        be_value(key)
    }

    fn rank_of(&self) -> u128 {
        read_be(&self.0)
    }
}

impl Ranked for WriterId {
    open spec fn rank(key: Seq<u8>) -> nat {
        be_value(key)
    }

    fn rank_of(&self) -> u128 {
        read_be(&self.0)
    }
}

/// Whether entries stand in the order of their keys, and no key occurs twice.
pub open spec fn sorted<K: Ranked, W>(entries: Seq<(K::V, W)>) -> bool {
    forall|i: int, j: int|
        0 <= i < j < entries.len() ==> K::rank((#[trigger] entries[i]).0) < K::rank(
            (#[trigger] entries[j]).0,
        )
}

/// How many entries come before a key.
pub open spec fn entries_before<K: Ranked, W>(entries: Seq<(K::V, W)>, key: K::V) -> nat
    decreases entries.len(),
{
    if entries.len() == 0 {
        0
    } else if K::rank(entries.last().0) < K::rank(key) {
        entries.len()
    } else {
        entries_before::<K, W>(entries.drop_last(), key)
    }
}

/// The entries with one more, which takes the place of the one with its key, if there is one.
pub open spec fn with_key<K: Ranked, W>(entries: Seq<(K::V, W)>, key: K::V, value: W) -> Seq<
    (K::V, W),
> {
    let place = entries_before::<K, W>(entries, key) as int;
    if place < entries.len() && K::rank(entries[place].0) == K::rank(key) {
        entries.update(place, (key, value))
    } else {
        entries.insert(place, (key, value))
    }
}

/// The entries before a key are those with a smaller number.
pub proof fn lemma_entries_before<K: Ranked, W>(entries: Seq<(K::V, W)>, key: K::V)
    requires
        sorted::<K, W>(entries),
    ensures
        ({
            let place = entries_before::<K, W>(entries, key);
            &&& place <= entries.len()
            &&& forall|i: int|
                0 <= i < place ==> K::rank((#[trigger] entries[i]).0) < K::rank(key)
            &&& forall|i: int|
                place <= i < entries.len() ==> K::rank((#[trigger] entries[i]).0) >= K::rank(key)
        }),
    decreases entries.len(),
{
    if entries.len() > 0 {
        if K::rank(entries.last().0) < K::rank(key) {
        } else {
            let front = entries.drop_last();
            lemma_entries_before::<K, W>(front, key);
            assert forall|i: int|
                entries_before::<K, W>(entries, key) <= i < entries.len() implies K::rank(
                (#[trigger] entries[i]).0,
            ) >= K::rank(key) by {
                if i < front.len() {
                    assert(entries[i] == front[i]);
                }
            }
            assert forall|i: int| 0 <= i < entries_before::<K, W>(entries, key) implies K::rank(
                (#[trigger] entries[i]).0,
            ) < K::rank(key) by {
                assert(entries[i] == front[i]);
            }
        }
    }
}

/// A map stays in order when an entry is inserted.
pub proof fn lemma_with_key_sorted<K: Ranked, W>(entries: Seq<(K::V, W)>, key: K::V, value: W)
    requires
        sorted::<K, W>(entries),
    ensures
        sorted::<K, W>(with_key::<K, W>(entries, key, value)),
{
    lemma_entries_before::<K, W>(entries, key);
    let place = entries_before::<K, W>(entries, key) as int;
    let after = with_key::<K, W>(entries, key, value);
    assert forall|i: int, j: int| 0 <= i < j < after.len() implies K::rank(
        (#[trigger] after[i]).0,
    ) < K::rank((#[trigger] after[j]).0) by {
        if after.len() == entries.len() {
            if i != place {
                assert(after[i] == entries[i]);
            }
            if j != place {
                assert(after[j] == entries[j]);
            }
        } else {
            let a = if i < place { i } else { i - 1 };
            let b = if j < place { j } else { j - 1 };
            if i != place {
                assert(after[i] == entries[a]);
            }
            if j != place {
                assert(after[j] == entries[b]);
            }
        }
    }
}

/// An entry whose key comes after all others is put last.
pub proof fn lemma_with_last_key<K: Ranked, W>(entries: Seq<(K::V, W)>, i: int)
    requires
        sorted::<K, W>(entries),
        0 <= i < entries.len(),
    ensures
        with_key::<K, W>(entries.take(i), entries[i].0, entries[i].1) == entries.take(i + 1),
{
    let front = entries.take(i);
    assert(sorted::<K, W>(front));
    lemma_entries_before::<K, W>(front, entries[i].0);
    let place = entries_before::<K, W>(front, entries[i].0) as int;
    if place < front.len() {
        assert(K::rank(front[place].0) < K::rank(entries[i].0));
    }
    assert(front.insert(i, entries[i]) =~= entries.take(i + 1));
}

/// A map that is walked in the order of its keys.
#[derive(Debug, PartialEq, Eq)]
pub struct OrderedMap<K, W> {
    entries: Vec<(K, W)>,
}

impl<K: View, W: View> View for OrderedMap<K, W> {
    type V = Seq<(K::V, W::V)>;

    closed spec fn view(&self) -> Seq<(K::V, W::V)> {
        Seq::new(self.entries@.len(), |i: int| (self.entries@[i].0@, self.entries@[i].1@))
    }
}

impl<K: Ranked, W: View> OrderedMap<K, W> {
    /// Whether the map is in order.
    pub open spec fn wf(&self) -> bool {
        sorted::<K, W::V>(self@)
    }

    /// The map without entries.
    pub fn new() -> (map: OrderedMap<K, W>)
        ensures
            map.wf(),
            map@ == Seq::<(K::V, W::V)>::empty(),
    {
        let map = OrderedMap { entries: Vec::new() };
        assert(map@ =~= Seq::<(K::V, W::V)>::empty());
        map
    }

    /// Inserts an entry. It takes the place of the one with its key, if there is one.
    pub fn insert(&mut self, key: K, value: W)
        requires
            old(self).wf(),
        ensures
            final(self).wf(),
            final(self)@ == with_key::<K, W::V>(old(self)@, key@, value@),
    {
        let ghost all = self@;
        let rank: u128 = key.rank_of();
        let mut i: usize = self.entries.len();
        assert(all.take(i as int) =~= all);
        while i > 0 && self.entries[i - 1].0.rank_of() >= rank
            invariant
                i <= self.entries.len(),
                *self == *old(self),
                all == self@,
                all.len() == self.entries.len(),
                rank == K::rank(key@),
                entries_before::<K, W::V>(all, key@) == entries_before::<K, W::V>(
                    all.take(i as int),
                    key@,
                ),
            decreases i,
        {
            assert(all.take(i as int).drop_last() =~= all.take(i - 1));
            assert(all[i - 1].0 == self.entries@[i - 1].0@);
            i = i - 1;
        }
        proof {
            if i > 0 {
                assert(all[i - 1].0 == self.entries@[i - 1].0@);
            }
            assert(entries_before::<K, W::V>(all, key@) == i);
            lemma_with_key_sorted::<K, W::V>(all, key@, value@);
        }
        if i < self.entries.len() && self.entries[i].0.rank_of() == rank {
            assert(all[i as int].0 == self.entries@[i as int].0@);
            self.entries.set(i, (key, value));
            assert(self@ =~= all.update(i as int, (key@, value@)));
        } else {
            assert(i < all.len() ==> all[i as int].0 == self.entries@[i as int].0@);
            self.entries.insert(i, (key, value));
            assert(self@ =~= all.insert(i as int, (key@, value@)));
        }
    }

    /// The number of entries.
    pub fn len(&self) -> (len: usize)
        ensures
            len == self@.len(),
    {
        self.entries.len()
    }

    /// An entry, by its place.
    pub fn entry(&self, i: usize) -> (entry: (&K, &W))
        requires
            i < self@.len(),
        ensures
            (entry.0@, entry.1@) == self@[i as int],
    {
        let entry = &self.entries[i];
        (&entry.0, &entry.1)
    }
}

} // verus!

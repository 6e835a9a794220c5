//! Named values, in the order in which they were defined.

use indexmap::IndexMap;
use vstd::prelude::*;

verus! {

/// `indexmap::IndexMap`.
#[verifier::external_type_specification]
#[verifier::external_body]
#[verifier::reject_recursive_types(K)]
#[verifier::reject_recursive_types(V)]
#[verifier::reject_recursive_types(S)]
pub struct ExIndexMap<K, V, S>(IndexMap<K, V, S>);

/// The numbers that an `IndexMap` holds, by the characters of their keys.
pub uninterp spec fn positions(index: IndexMap<String, usize>) -> Map<Seq<char>, usize>;

/// `IndexMap::new`: a map without entries.
#[verifier::external_body]
fn new_index() -> (r: IndexMap<String, usize>)
    ensures
        positions(r).dom() =~= Set::<Seq<char>>::empty(),
{
    IndexMap::new()
}

/// `IndexMap::insert`: the key stands for the new number afterwards, every
/// other key for what it stood for before.
#[verifier::external_body]
fn set_position(index: &mut IndexMap<String, usize>, key: String, at: usize)
    ensures
        positions(*final(index)) == positions(*old(index)).insert(key@, at),
{
    index.insert(key, at);
}

/// `IndexMap::get`: the number that the key stands for, if it is there.
#[verifier::external_body]
fn position_of(index: &IndexMap<String, usize>, key: &str) -> (r: Option<usize>)
    ensures
        match r {
            Some(at) => positions(*index).dom().contains(key@) && positions(*index)[key@] == at,
            None => !positions(*index).dom().contains(key@),
        },
{
    index.get(key).copied()
}

/// Values by name.
#[verifier::reject_recursive_types(V)]
pub struct Registry<V> {
    index: IndexMap<String, usize>,
    entries: Vec<(String, V)>,
}

/// The entries from the first to the last, a later one replacing an earlier
/// one of the same name.
pub open spec fn merged<V>(entries: Seq<(String, V)>) -> Map<Seq<char>, V>
    decreases entries.len(),
{
    if entries.len() == 0 {
        Map::empty()
    } else {
        merged(entries.drop_last()).insert(entries.last().0@, entries.last().1)
    }
}

impl<V> View for Registry<V> {
    type V = Map<Seq<char>, V>;

    closed spec fn view(&self) -> Map<Seq<char>, V> {
        merged(self.entries@)
    }
}

/// The index holds the last position of each name.
spec fn indexes<V>(at: Map<Seq<char>, usize>, entries: Seq<(String, V)>) -> bool {
    &&& forall|i: int|
        0 <= i < entries.len() ==> at.dom().contains((#[trigger] entries[i]).0@)
            && at[entries[i].0@] >= i
    &&& forall|k: Seq<char>| #[trigger]
        at.dom().contains(k) ==> at[k] < entries.len() && entries[at[k] as int].0@ == k
}

proof fn lemma_merged<V>(at: Map<Seq<char>, usize>, entries: Seq<(String, V)>, k: Seq<char>)
    requires
        indexes(at, entries),
    ensures
        merged(entries).dom().contains(k) <==> at.dom().contains(k),
        at.dom().contains(k) ==> merged(entries)[k] == entries[at[k] as int].1,
{
    lemma_merged_keys(entries, k);
    if merged(entries).dom().contains(k) {
        let i = choose|i: int| 0 <= i < entries.len() && (#[trigger] entries[i]).0@ == k;
        assert(at.dom().contains(entries[i].0@));
    }
    if at.dom().contains(k) {
        let p = at[k] as int;
        assert(entries[p].0@ == k);
        lemma_merged_last(entries, k, p);
    }
}

proof fn lemma_merged_keys<V>(entries: Seq<(String, V)>, k: Seq<char>)
    ensures
        merged(entries).dom().contains(k) <==> exists|i: int|
            0 <= i < entries.len() && (#[trigger] entries[i]).0@ == k,
    decreases entries.len(),
{
    if entries.len() > 0 {
        let t = entries.drop_last();
        lemma_merged_keys(t, k);
        if exists|i: int| 0 <= i < t.len() && (#[trigger] t[i]).0@ == k {
            let i = choose|i: int| 0 <= i < t.len() && (#[trigger] t[i]).0@ == k;
            assert(entries[i].0@ == k);
        }
        if exists|i: int| 0 <= i < entries.len() && (#[trigger] entries[i]).0@ == k {
            let i = choose|i: int| 0 <= i < entries.len() && (#[trigger] entries[i]).0@ == k;
            if i < t.len() {
                assert(t[i].0@ == k);
            }
        }
        assert(entries[entries.len() - 1].0@ == entries.last().0@);
    }
}

proof fn lemma_merged_last<V>(entries: Seq<(String, V)>, k: Seq<char>, p: int)
    requires
        0 <= p < entries.len(),
        entries[p].0@ == k,
        forall|i: int| p < i < entries.len() ==> (#[trigger] entries[i]).0@ != k,
    ensures
        merged(entries)[k] == entries[p].1,
    decreases entries.len(),
{
    if p < entries.len() - 1 {
        let t = entries.drop_last();
        assert forall|i: int| p < i < t.len() implies (#[trigger] t[i]).0@ != k by {
            assert(entries[i].0@ != k);
        }
        lemma_merged_last(t, k, p);
        assert(entries[entries.len() - 1].0@ != k);
    }
}

proof fn lemma_merged_size<V>(entries: Seq<(String, V)>)
    ensures
        entries.len() == 0 <==> merged(entries) == Map::<Seq<char>, V>::empty(),
{
    if entries.len() > 0 {
        assert(merged(entries).dom().contains(entries.last().0@));
    }
}

impl<V> Registry<V> {
    pub closed spec fn wf(&self) -> bool {
        indexes(positions(self.index), self.entries@)
    }

    pub fn new() -> (r: Self)
        ensures
            r.wf(),
            r@ == Map::<Seq<char>, V>::empty(),
    {
        Registry { index: new_index(), entries: Vec::new() }
    }

    /// Defines `name`, in place of what it stood for before.
    pub fn insert(&mut self, name: String, value: V)
        requires
            old(self).wf(),
        ensures
            final(self).wf(),
            final(self)@ == old(self)@.insert(name@, value),
    {
        let at: usize = self.entries.len();
        let ghost before = self.entries@;
        let ghost index = positions(self.index);
        set_position(&mut self.index, name.clone(), at);
        self.entries.push((name, value));
        proof {
            assert(self.entries@.drop_last() =~= before);
            let after = positions(self.index);
            assert forall|i: int| 0 <= i < self.entries@.len() implies after.dom().contains(
                (#[trigger] self.entries@[i]).0@,
            ) && after[self.entries@[i].0@] >= i by {
                if i < at {
                    assert(self.entries@[i] == before[i]);
                }
            }
            assert forall|k: Seq<char>| #[trigger] after.dom().contains(k) implies after[k]
                < self.entries@.len() && self.entries@[after[k] as int].0@ == k by {
                if k != name@ {
                    assert(index.dom().contains(k));
                    assert(self.entries@[after[k] as int] == before[after[k] as int]);
                }
            }
        }
    }

    pub fn get(&self, name: &str) -> (r: Option<&V>)
        requires
            self.wf(),
        ensures
            match r {
                Some(v) => self@.dom().contains(name@) && self@[name@] == *v,
                None => !self@.dom().contains(name@),
            },
    {
        proof {
            lemma_merged(positions(self.index), self.entries@, name@);
        }
        match position_of(&self.index, name) {
            Some(at) => Some(&self.entries[at].1),
            None => None,
        }
    }

    pub fn is_empty(&self) -> (r: bool)
        requires
            self.wf(),
        ensures
            r == (self@ == Map::<Seq<char>, V>::empty()),
    {
        proof {
            lemma_merged_size(self.entries@);
        }
        self.entries.len() == 0
    }

    /// Takes over the definitions of `other`, which win over those that are
    /// there.
    pub fn extend(&mut self, other: Self)
        requires
            old(self).wf(),
            other.wf(),
        ensures
            final(self).wf(),
            final(self)@ == old(self)@.union_prefer_right(other@),
    {
        let ghost start = self@;
        let ghost all = other.entries@;
        proof {
            assert(start =~= start.union_prefer_right(merged(all.take(0))));
        }
        let entries = other.entries;
        for entry in it: entries
            invariant
                it.seq() == all,
                self.wf(),
                self@ == start.union_prefer_right(merged(all.take(it.index()))),
        {
            let ghost before = self@;
            let (name, value) = entry;
            proof {
                assert(all.take(it.index() + 1).drop_last() =~= all.take(it.index()));
                assert(all.take(it.index() + 1).last() == entry);
            }
            self.insert(name, value);
            proof {
                assert(self@ =~= start.union_prefer_right(merged(all.take(it.index() + 1))));
            }
        }
        proof {
            assert(all.take(all.len() as int) =~= all);
        }
    }
}

impl Clone for Registry<String> {
    fn clone(&self) -> (r: Self)
        ensures
            r@ == self@,
            r.wf(),
    {
        let mut out: Registry<String> = Registry::new();
        let ghost all = self.entries@;
        let mut i: usize = 0;
        while i < self.entries.len()
            invariant
                i <= self.entries@.len(),
                all == self.entries@,
                out.wf(),
                out@ == merged(all.take(i as int)),
            decreases self.entries@.len() - i,
        {
            proof {
                assert(all.take(i + 1).drop_last() =~= all.take(i as int));
                assert(all.take(i + 1).last() == all[i as int]);
            }
            out.insert(self.entries[i].0.clone(), self.entries[i].1.clone());
            i += 1;
        }
        proof {
            assert(all.take(i as int) =~= all);
        }
        out
    }
}

} // verus!

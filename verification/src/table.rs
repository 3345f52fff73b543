//! Tables of shared layouts under their keys, with a record of which keys were used.

use crate::keys::SameKey;
use std::sync::Arc;
use vstd::prelude::*;

verus! {

/// The layouts that one frame holds and the keys that it used, in the order of their use.
///
/// The layouts stand in a list in which no key occurs twice.
pub struct LayoutTable<K, V> {
    entries: Vec<(Arc<K>, Arc<V>)>,
    used: Vec<Arc<K>>,
}

/// What a table of layouts is.
#[verifier::ext_equal]
#[verifier::reject_recursive_types(Key)]
pub struct TableView<Key, V> {
    /// The layout under each key.
    pub layouts: Map<Key, V>,
    /// The keys used, in the order of their use.
    pub used: Seq<Key>,
}

impl<Key, V> TableView<Key, V> {
    /// The table of nothing.
    pub open spec fn empty() -> Self {
        TableView { layouts: Map::empty(), used: Seq::empty() }
    }

    /// The table without the layout under a key.
    pub open spec fn without(self, key: Key) -> Self {
        TableView { layouts: self.layouts.remove(key), used: self.used }
    }

    /// The table with one more layout, whose key has been used.
    pub open spec fn with(self, key: Key, layout: V) -> Self {
        TableView { layouts: self.layouts.insert(key, layout), used: self.used.push(key) }
    }

    /// The keys of one stretch of uses.
    pub open spec fn used_between(self, start: int, end: int) -> Set<Key> {
        self.used.subrange(start, end).to_set()
    }

    /// The table without the layouts that one stretch of its uses was of.
    pub open spec fn without_used(self, start: int, end: int) -> Self {
        TableView {
            layouts: self.layouts.remove_keys(self.used_between(start, end)),
            used: self.used,
        }
    }

    /// The table with one stretch of the uses of another, and with the layouts that they were
    /// of as far as the other table still has them.
    pub open spec fn with_used(self, other: Self, start: int, end: int) -> Self {
        TableView {
            layouts: self.layouts.union_prefer_right(
                other.layouts.restrict(other.used_between(start, end)),
            ),
            used: self.used + other.used.subrange(start, end),
        }
    }

    /// Whether a table of the current frame has the layout of each use, and a table of the
    /// previous frame has it unless the current frame took it over.
    pub open spec fn keeps_used(previous: Self, current: Self) -> bool {
        &&& forall|n: int|
            0 <= n < current.used.len() ==> current.layouts.contains_key(#[trigger] current.used[n])
        &&& forall|n: int|
            0 <= n < previous.used.len() ==> {
                ||| previous.layouts.contains_key(#[trigger] previous.used[n])
                ||| current.layouts.contains_key(previous.used[n])
            }
    }
}

/// Whether the entry numbered `n` is the one for a key.
pub open spec fn is_entry<K: View, V>(
    entries: Seq<(Arc<K>, Arc<V>)>,
    key: K::V,
    n: int,
) -> bool {
    0 <= n < entries.len() && entries[n].0@ == key
}

/// The layouts that a list of entries has under their keys.
pub open spec fn entry_map<K: View, V>(entries: Seq<(Arc<K>, Arc<V>)>) -> Map<K::V, V> {
    Map::new(
        |key: K::V| exists|n: int| is_entry(entries, key, n),
        |key: K::V| *entries[choose|n: int| is_entry(entries, key, n)].1,
    )
}

/// Whether no key occurs twice in a list of entries.
pub open spec fn no_key_twice<K: View, V>(entries: Seq<(Arc<K>, Arc<V>)>) -> bool {
    forall|n: int, m: int|
        0 <= n < m < entries.len() ==> (#[trigger] entries[n]).0@ != (#[trigger] entries[m]).0@
}

proof fn lemma_entry<K: View, V>(entries: Seq<(Arc<K>, Arc<V>)>, n: int)
    requires
        no_key_twice(entries),
        0 <= n < entries.len(),
    ensures
        entry_map(entries).contains_key(entries[n].0@),
        entry_map(entries)[entries[n].0@] == *entries[n].1,
{
    let key = entries[n].0@;
    assert(is_entry(entries, key, n));
    let m = choose|m: int| is_entry(entries, key, m);
    assert(is_entry(entries, key, m));
    assert(m == n);
}

impl<K: View, V> View for LayoutTable<K, V> {
    type V = TableView<K::V, V>;

    closed spec fn view(&self) -> TableView<K::V, V> {
        TableView {
            layouts: entry_map(self.entries@),
            used: Seq::new(self.used@.len(), |n: int| self.used@[n]@),
        }
    }
}

impl<K: View, V> LayoutTable<K, V> {
    /// Whether no key occurs twice in the list of layouts.
    pub closed spec fn wf(self) -> bool {
        no_key_twice(self.entries@)
    }

    /// A table of nothing.
    pub fn new() -> (table: Self)
        ensures
            table.wf(),
            table@ == TableView::<K::V, V>::empty(),
    {
        let table = LayoutTable { entries: Vec::new(), used: Vec::new() };
        proof {
            assert forall|key: K::V, n: int| !is_entry(table.entries@, key, n) by {}
            assert(table@.layouts =~= Map::empty());
            assert(table@.used =~= Seq::empty());
        }
        table
    }

    /// How many uses are recorded.
    pub fn used_len(&self) -> (len: usize)
        ensures
            len == self@.used.len(),
    {
        self.used.len()
    }

    /// Forget all uses but the first `len`.
    pub fn truncate_used(&mut self, len: usize)
        ensures
            old(self).wf() ==> final(self).wf(),
            final(self)@.layouts == old(self)@.layouts,
            final(self)@.used == (if len <= old(self)@.used.len() {
                old(self)@.used.take(len as int)
            } else {
                old(self)@.used
            }),
    {
        let ghost before = self@.used;
        self.used.truncate(len);
        proof {
            if len <= before.len() {
                assert(self@.used =~= before.take(len as int));
            } else {
                assert(self@.used =~= before);
            }
        }
    }

    /// Forget all layouts and all uses.
    pub fn clear(&mut self)
        ensures
            final(self).wf(),
            final(self)@ == TableView::<K::V, V>::empty(),
    {
        self.entries.clear();
        self.used.clear();
        proof {
            assert forall|key: K::V, n: int| !is_entry(self.entries@, key, n) by {}
            assert(self@.layouts =~= Map::empty());
            assert(self@.used =~= Seq::empty());
        }
    }

    /// The number of the entry for a key.
    fn find<Probe: View<V = K::V>>(&self, probe: &Probe) -> (found: Option<usize>) where
        K: SameKey<Probe>,

        requires
            self.wf(),
        ensures
            match found {
                Some(n) => {
                    &&& n < self.entries@.len()
                    &&& self.entries@[n as int].0@ == probe@
                    &&& self@.layouts.contains_key(probe@)
                    &&& self@.layouts[probe@] == *self.entries@[n as int].1
                },
                None => {
                    &&& !self@.layouts.contains_key(probe@)
                    &&& forall|n: int|
                        0 <= n < self.entries@.len() ==> (#[trigger] self.entries@[n]).0@ != probe@
                },
            },
    {
        let mut n: usize = 0;
        while n < self.entries.len()
            invariant
                n <= self.entries@.len(),
                self.wf(),
                forall|m: int| 0 <= m < n ==> (#[trigger] self.entries@[m]).0@ != probe@,
            decreases self.entries@.len() - n,
        {
            if (*self.entries[n].0).same_key(probe) {
                proof {
                    lemma_entry(self.entries@, n as int);
                }
                return Some(n);
            }
            n += 1;
        }
        proof {
            assert forall|m: int| !is_entry(self.entries@, probe@, m) by {}
        }
        None
    }

    /// The layout under a key.
    pub fn get<Probe: View<V = K::V>>(&self, probe: &Probe) -> (layout: Option<Arc<V>>) where
        K: SameKey<Probe>,

        requires
            self.wf(),
        ensures
            match layout {
                Some(layout) => self@.layouts.contains_key(probe@) && *layout
                    == self@.layouts[probe@],
                None => !self@.layouts.contains_key(probe@),
            },
    {
        match self.find(probe) {
            Some(n) => Some(self.entries[n].1.clone()),
            None => None,
        }
    }

    /// Whether a key has been used.
    pub fn is_used<Probe: View<V = K::V>>(&self, probe: &Probe) -> (used: bool) where
        K: SameKey<Probe>,

        ensures
            used == self@.used.contains(probe@),
    {
        let mut n: usize = 0;
        while n < self.used.len()
            invariant
                n <= self.used@.len(),
                forall|m: int| 0 <= m < n ==> (#[trigger] self@.used[m]) != probe@,
            decreases self.used@.len() - n,
        {
            assert(self@.used[n as int] == self.used@[n as int]@);
            if (*self.used[n]).same_key(probe) {
                return true;
            }
            n += 1;
        }
        false
    }

    /// Take a layout out of the table, with its key.
    fn remove_entry<Probe: View<V = K::V>>(&mut self, probe: &Probe) -> (removed: Option<
        (Arc<K>, Arc<V>),
    >) where K: SameKey<Probe>,
        requires
            old(self).wf(),
        ensures
            final(self).wf(),
            final(self)@ == old(self)@.without(probe@),
            match removed {
                Some((key, layout)) => {
                    &&& key@ == probe@
                    &&& old(self)@.layouts.contains_key(probe@)
                    &&& *layout == old(self)@.layouts[probe@]
                },
                None => !old(self)@.layouts.contains_key(probe@),
            },
    {
        let ghost before = self.entries@;
        match self.find(probe) {
            Some(n) => {
                let removed = self.entries.swap_remove(n);
                proof {
                    let after = self.entries@;
                    let last = before.len() - 1;
                    assert forall|i: int| 0 <= i < after.len() implies after[i] == (if i == n {
                        before[last]
                    } else {
                        before[i]
                    }) by {}
                    assert forall|i: int, j: int| 0 <= i < j < after.len() implies (
                    #[trigger] after[i]).0@ != (#[trigger] after[j]).0@ by {
                        let from_i = if i == n {
                            last
                        } else {
                            i
                        };
                        let from_j = if j == n {
                            last
                        } else {
                            j
                        };
                        assert(before[from_i].0@ != before[from_j].0@);
                    }
                    assert forall|key: K::V|
                        #[trigger] entry_map(after).contains_key(key) == entry_map(before).remove(
                            probe@,
                        ).contains_key(key) && (entry_map(after).contains_key(key)
                            ==> entry_map(after)[key] == entry_map(before)[key]) by {
                        if entry_map(after).contains_key(key) {
                            let i = choose|i: int| is_entry(after, key, i);
                            assert(is_entry(after, key, i));
                            let from_i = if i == n {
                                last
                            } else {
                                i
                            };
                            lemma_entry(after, i);
                            lemma_entry(before, from_i);
                            assert(before[from_i].0@ != before[n as int].0@);
                        }
                        if entry_map(before).contains_key(key) && key != probe@ {
                            let i = choose|i: int| is_entry(before, key, i);
                            assert(is_entry(before, key, i));
                            let to_i = if i == last {
                                n as int
                            } else {
                                i
                            };
                            assert(is_entry(after, key, to_i));
                        }
                    }
                    assert(self@.layouts =~= old(self)@.layouts.remove(probe@));
                }
                Some(removed)
            },
            None => {
                assert(self@.layouts =~= old(self)@.layouts.remove(probe@));
                None
            },
        }
    }

    /// Put a layout into the table. One that was there under the same key gives way.
    fn insert_entry(&mut self, key: Arc<K>, layout: Arc<V>) where K: SameKey<K>
        requires
            old(self).wf(),
        ensures
            final(self).wf(),
            final(self)@.layouts == old(self)@.layouts.insert(key@, *layout),
            final(self)@.used == old(self)@.used,
    {
        let ghost before = self.entries@;
        let ghost abs_key = key@;
        match self.find(&*key) {
            Some(n) => {
                let old_key = self.entries[n].0.clone();
                self.entries.set(n, (old_key, layout));
                proof {
                    let after = self.entries@;
                    assert forall|i: int| 0 <= i < after.len() implies (
                    #[trigger] after[i]).0@ == before[i].0@ by {}
                    assert(no_key_twice(after)) by {
                        assert forall|i: int, j: int| 0 <= i < j < after.len() implies (
                        #[trigger] after[i]).0@ != (#[trigger] after[j]).0@ by {
                            assert(before[i].0@ != before[j].0@);
                        }
                    }
                    assert forall|k: K::V|
                        #[trigger] entry_map(after).contains_key(k) == entry_map(before).insert(
                            abs_key,
                            *layout,
                        ).contains_key(k) && (entry_map(after).contains_key(k) ==> entry_map(
                            after,
                        )[k] == entry_map(before).insert(abs_key, *layout)[k]) by {
                        lemma_entry(after, n as int);
                        if entry_map(after).contains_key(k) {
                            let i = choose|i: int| is_entry(after, k, i);
                            assert(is_entry(after, k, i));
                            lemma_entry(after, i);
                            lemma_entry(before, i);
                        }
                        if entry_map(before).contains_key(k) {
                            let i = choose|i: int| is_entry(before, k, i);
                            assert(is_entry(before, k, i));
                            assert(is_entry(after, k, i));
                        }
                    }
                    assert(self@.layouts =~= old(self)@.layouts.insert(abs_key, *layout));
                }
            },
            None => {
                self.entries.push((key, layout));
                proof {
                    let after = self.entries@;
                    let last = before.len() as int;
                    assert(no_key_twice(after)) by {
                        assert forall|i: int, j: int| 0 <= i < j < after.len() implies (
                        #[trigger] after[i]).0@ != (#[trigger] after[j]).0@ by {
                            assert(after[i] == before[i]);
                            if j < last {
                                assert(before[i].0@ != before[j].0@);
                            }
                        }
                    }
                    assert forall|k: K::V|
                        #[trigger] entry_map(after).contains_key(k) == entry_map(before).insert(
                            abs_key,
                            *layout,
                        ).contains_key(k) && (entry_map(after).contains_key(k) ==> entry_map(
                            after,
                        )[k] == entry_map(before).insert(abs_key, *layout)[k]) by {
                        lemma_entry(after, last);
                        if entry_map(after).contains_key(k) {
                            let i = choose|i: int| is_entry(after, k, i);
                            assert(is_entry(after, k, i));
                            lemma_entry(after, i);
                            if i < last {
                                lemma_entry(before, i);
                            }
                        }
                        if entry_map(before).contains_key(k) {
                            let i = choose|i: int| is_entry(before, k, i);
                            assert(is_entry(before, k, i));
                            assert(is_entry(after, k, i));
                        }
                    }
                    assert(self@.layouts =~= old(self)@.layouts.insert(abs_key, *layout));
                }
            },
        }
        assert(self@.used =~= old(self)@.used);
    }

    /// Record the use of a key.
    fn push_used(&mut self, key: Arc<K>)
        ensures
            old(self).wf() ==> final(self).wf(),
            final(self)@.layouts == old(self)@.layouts,
            final(self)@.used == old(self)@.used.push(key@),
    {
        let ghost abs_key = key@;
        self.used.push(key);
        assert(self@.used =~= old(self)@.used.push(abs_key));
    }

    /// Put a layout into the table and record the use of its key.
    pub fn insert(&mut self, key: Arc<K>, layout: Arc<V>) where K: SameKey<K>
        requires
            old(self).wf(),
        ensures
            final(self).wf(),
            final(self)@ == old(self)@.with(key@, *layout),
    {
        let used = key.clone();
        self.insert_entry(key, layout);
        self.push_used(used);
    }

    /// Take over a layout from the table of the previous frame, if it is there.
    pub fn take_over<Probe: View<V = K::V>>(
        &mut self,
        previous: &mut LayoutTable<K, V>,
        probe: &Probe,
    ) -> (layout: Option<Arc<V>>) where K: SameKey<Probe> + SameKey<K>
        requires
            old(self).wf(),
            old(previous).wf(),
        ensures
            final(self).wf(),
            final(previous).wf(),
            match layout {
                Some(layout) => {
                    &&& old(previous)@.layouts.contains_key(probe@)
                    &&& *layout == old(previous)@.layouts[probe@]
                    &&& final(previous)@ == old(previous)@.without(probe@)
                    &&& final(self)@ == old(self)@.with(probe@, *layout)
                },
                None => {
                    &&& !old(previous)@.layouts.contains_key(probe@)
                    &&& final(previous)@ == old(previous)@
                    &&& final(self)@ == old(self)@
                },
            },
    {
        match previous.remove_entry(probe) {
            Some((key, layout)) => {
                self.insert(key, layout.clone());
                Some(layout)
            },
            None => {
                assert(old(previous)@.without(probe@).layouts =~= old(previous)@.layouts);
                None
            },
        }
    }

    /// Take over one stretch of the uses of the previous frame, with the layouts that they
    /// were of.
    pub fn reuse(&mut self, previous: &mut LayoutTable<K, V>, start: usize, end: usize) where
        K: SameKey<K>,

        requires
            old(self).wf(),
            old(previous).wf(),
            start <= end <= old(previous)@.used.len(),
        ensures
            final(self).wf(),
            final(previous).wf(),
            final(previous)@ == old(previous)@.without_used(start as int, end as int),
            final(self)@ == old(self)@.with_used(old(previous)@, start as int, end as int),
    {
        let ghost prev = previous@;
        let ghost cur = self@;
        let mut n: usize = start;
        proof {
            let none = prev.used_between(start as int, start as int);
            assert(prev.used.subrange(start as int, start as int) =~= Seq::empty());
            assert(none =~= Set::empty());
            assert(prev.layouts.remove_keys(none) =~= prev.layouts);
            assert(cur.layouts.union_prefer_right(prev.layouts.restrict(none)) =~= cur.layouts);
            assert(cur.used + prev.used.subrange(start as int, start as int) =~= cur.used);
        }
        while n < end
            invariant
                start <= n <= end <= prev.used.len(),
                self.wf(),
                previous.wf(),
                previous@ == prev.without_used(start as int, n as int),
                self@ == cur.with_used(prev, start as int, n as int),
            decreases end - n,
        {
            let key = previous.used[n].clone();
            let ghost abs_key = key@;
            let ghost mid_prev = previous@;
            let ghost mid_cur = self@;
            assert(abs_key == prev.used[n as int]);
            if let Some((key, layout)) = previous.remove_entry(&*key) {
                self.insert_entry(key, layout);
            }
            self.push_used(key);
            proof {
                let before = prev.used_between(start as int, n as int);
                let after = prev.used_between(start as int, n + 1);
                assert(prev.used.subrange(start as int, n + 1) =~= prev.used.subrange(
                    start as int,
                    n as int,
                ).push(abs_key));
                assert(after =~= before.insert(abs_key)) by {
                    let old_used = prev.used.subrange(start as int, n as int);
                    let new_used = prev.used.subrange(start as int, n + 1);
                    assert forall|k: K::V| #[trigger]
                        new_used.contains(k) <==> old_used.contains(k) || k == abs_key by {
                        if old_used.contains(k) {
                            let i = choose|i: int| 0 <= i < old_used.len() && old_used[i] == k;
                            assert(new_used[i] == k);
                        }
                        if k == abs_key {
                            assert(new_used[old_used.len() as int] == k);
                        }
                    }
                    assert forall|k: K::V| #[trigger]
                        after.contains(k) <==> before.insert(abs_key).contains(k) by {
                        assert(after.contains(k) <==> new_used.contains(k));
                        assert(before.contains(k) <==> old_used.contains(k));
                    }
                }
                assert(previous@.layouts =~= prev.layouts.remove_keys(after));
                assert(self@.layouts =~= cur.layouts.union_prefer_right(
                    prev.layouts.restrict(after),
                ));
                assert(self@.used =~= cur.used + prev.used.subrange(start as int, n + 1));
            }
            n += 1;
        }
    }
}

} // verus!

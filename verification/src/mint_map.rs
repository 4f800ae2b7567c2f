use vstd::prelude::*;

verus! {

/// An insertion-ordered map from mint addresses to per-mint values.
///
/// Balances and prices are keyed by the mint's base58 string. The map is a
/// vector of entries with pairwise-distinct keys, so that its abstract value
/// is both a `Map` (for lookups) and a `Seq` (for order-dependent folds such
/// as the USD total of a bucket).
pub struct MintMap<V> {
    pub entries: Vec<(String, V)>,
}

/// The `Map` abstraction of a sequence of key/value entries; later entries
/// win, though well-formed maps never repeat a key.
pub open spec fn map_of<V>(entries: Seq<(String, V)>) -> Map<Seq<char>, V>
    decreases entries.len(),
{
    if entries.len() == 0 {
        Map::empty()
    } else {
        map_of(entries.drop_last()).insert(entries.last().0@, entries.last().1)
    }
}

impl<V: Copy> MintMap<V> {
    /// Keys of distinct entries differ.
    pub open spec fn wf(&self) -> bool {
        forall|i: int, j: int|
            0 <= i < j < self.entries@.len() ==> self.entries@[i].0@ != self.entries@[j].0@
    }

    /// The map abstraction, used by lookup contracts.
    pub open spec fn view(&self) -> Map<Seq<char>, V> {
        map_of(self.entries@)
    }

    /// The entry-sequence abstraction, used by order-dependent folds.
    pub open spec fn seq_view(&self) -> Seq<(Seq<char>, V)> {
        self.entries@.map_values(|e: (String, V)| (e.0@, e.1))
    }

    pub fn new() -> (r: Self)
        ensures
            r.wf(),
            r@ == Map::<Seq<char>, V>::empty(),
            r.seq_view() == Seq::<(Seq<char>, V)>::empty(),
    {
        let r = MintMap { entries: Vec::new() };
        proof {
            assert(r.seq_view() =~= Seq::<(Seq<char>, V)>::empty());
        }
        r
    }

    pub fn len(&self) -> (r: usize)
        ensures
            r == self.seq_view().len(),
    {
        self.entries.len()
    }

    /// The entry at a position, for iterating over the map in entry order.
    pub fn entry_at(&self, i: usize) -> (r: (&String, V))
        requires
            self.wf(),
            i < self.seq_view().len(),
        ensures
            (r.0@, r.1) == self.seq_view()[i as int],
            self@.contains_key(r.0@),
            self@[r.0@] == r.1,
    {
        proof {
            lemma_map_of_at_unique(self.entries@, i as int);
        }
        let e = &self.entries[i];
        (&e.0, e.1)
    }

    /// Look up a mint.
    pub fn get(&self, mint: &String) -> (r: Option<V>)
        requires
            self.wf(),
        ensures
            match r {
                Some(v) => self@.contains_key(mint@) && self@[mint@] == v,
                None => !self@.contains_key(mint@),
            },
    {
        let n = self.entries.len();
        let mut i: usize = 0;
        while i < n
            invariant
                i <= n,
                n == self.entries@.len(),
                self.wf(),
                forall|j: int| 0 <= j < i ==> self.entries@[j].0@ != mint@,
            decreases n - i,
        {
            if self.entries[i].0 == *mint {
                proof {
                    lemma_map_of_at_unique(self.entries@, i as int);
                }
                return Some(self.entries[i].1);
            }
            i += 1;
        }
        proof {
            lemma_map_of_absent(self.entries@, mint@);
        }
        None
    }

    /// Insert or overwrite the value for a mint.
    pub fn set(&mut self, mint: &String, v: V)
        requires
            old(self).wf(),
        ensures
            final(self).wf(),
            final(self)@ == old(self)@.insert(mint@, v),
            !old(self)@.contains_key(mint@) ==> final(self).seq_view() == old(self).seq_view().push(
                (mint@, v),
            ),
            old(self)@.contains_key(mint@) ==> final(self).seq_view().len() == old(
                self,
            ).seq_view().len(),
    {
        let n = self.entries.len();
        let mut i: usize = 0;
        while i < n
            invariant
                i <= n,
                n == self.entries@.len(),
                self.wf(),
                self.entries@ == old(self).entries@,
                forall|j: int| 0 <= j < i ==> self.entries@[j].0@ != mint@,
            decreases n - i,
        {
            if self.entries[i].0 == *mint {
                let ghost pre = self.entries@;
                self.entries[i].1 = v;
                proof {
                    lemma_map_of_key_at(pre, i as int);
                    lemma_map_of_update_value(pre, i as int, v);
                    assert(self@ =~= old(self)@.insert(mint@, v));
                }
                return;
            }
            i += 1;
        }
        let ghost pre = self.entries@;
        self.entries.push((mint.clone(), v));
        proof {
            assert(self.entries@.drop_last() =~= pre);
            lemma_map_of_absent(pre, mint@);
            assert(self.seq_view() =~= old(self).seq_view().push((mint@, v)));
        }
    }

    /// Remove a mint if present.
    pub fn remove(&mut self, mint: &String)
        requires
            old(self).wf(),
        ensures
            final(self).wf(),
            final(self)@ == old(self)@.remove(mint@),
    {
        let n = self.entries.len();
        let mut i: usize = 0;
        while i < n
            invariant
                i <= n,
                n == self.entries@.len(),
                self.wf(),
                self.entries@ == old(self).entries@,
                forall|j: int| 0 <= j < i ==> self.entries@[j].0@ != mint@,
            decreases n - i,
        {
            if self.entries[i].0 == *mint {
                let ghost pre = self.entries@;
                self.entries.remove(i);
                proof {
                    lemma_map_of_remove_at(pre, i as int);
                    assert(self@ =~= old(self)@.remove(mint@));
                }
                return;
            }
            i += 1;
        }
        proof {
            lemma_map_of_absent(self.entries@, mint@);
            assert(self@ =~= old(self)@.remove(mint@));
        }
    }

    /// A key in the map is the key of some entry.
    pub proof fn lemma_key_has_entry(&self, k: Seq<char>)
        requires
            self@.contains_key(k),
        ensures
            exists|i: int| 0 <= i < self.seq_view().len() && (#[trigger] self.seq_view()[i]).0 == k,
    {
        if forall|i: int| 0 <= i < self.seq_view().len() ==> (#[trigger] self.seq_view()[i]).0 != k {
            assert(forall|i: int|
                0 <= i < self.entries@.len() ==> (#[trigger] self.entries@[i]).0@ == self.seq_view()[i].0);
            lemma_map_of_absent(self.entries@, k);
        }
    }

    /// The key of any entry is in the map.
    pub proof fn lemma_entry_key(&self, i: int)
        requires
            0 <= i < self.seq_view().len(),
        ensures
            self@.contains_key(self.seq_view()[i].0),
    {
        lemma_map_of_key_at(self.entries@, i);
    }

    /// An order- and content-preserving copy.
    pub fn duplicate(&self) -> (r: Self)
        ensures
            r.entries@.len() == self.entries@.len(),
            r.seq_view() == self.seq_view(),
            r@ == self@,
            r.wf() == self.wf(),
    {
        let n = self.entries.len();
        let mut out: Vec<(String, V)> = Vec::new();
        let mut i: usize = 0;
        while i < n
            invariant
                i <= n,
                n == self.entries@.len(),
                out@.len() == i,
                forall|j: int| 0 <= j < i ==> out@[j] == self.entries@[j],
            decreases n - i,
        {
            let e = &self.entries[i];
            out.push((e.0.clone(), e.1));
            i += 1;
        }
        let r = MintMap { entries: out };
        proof {
            assert(r.entries@ =~= self.entries@);
        }
        r
    }
}

/// The `Map` abstraction of a sequence of already-viewed entries.
pub open spec fn map_of_kv<V>(entries: Seq<(Seq<char>, V)>) -> Map<Seq<char>, V>
    decreases entries.len(),
{
    if entries.len() == 0 {
        Map::empty()
    } else {
        map_of_kv(entries.drop_last()).insert(entries.last().0, entries.last().1)
    }
}

/// A map's `Map` abstraction is determined by its entry sequence.
pub proof fn lemma_view_is_map_of_kv<V: Copy>(m: &MintMap<V>)
    ensures
        m@ == map_of_kv(m.seq_view()),
{
    lemma_map_of_kv_agrees(m.entries@);
}

proof fn lemma_map_of_kv_agrees<V>(entries: Seq<(String, V)>)
    ensures
        map_of(entries) == map_of_kv(entries.map_values(|e: (String, V)| (e.0@, e.1))),
    decreases entries.len(),
{
    let viewed = entries.map_values(|e: (String, V)| (e.0@, e.1));
    if entries.len() == 0 {
        assert(viewed.len() == 0);
    } else {
        lemma_map_of_kv_agrees(entries.drop_last());
        assert(viewed.drop_last() =~= entries.drop_last().map_values(|e: (String, V)| (e.0@, e.1)));
        assert(viewed.last() == (entries.last().0@, entries.last().1));
    }
}

/// With pairwise-distinct keys, the entry at `i` gives the map's value.
proof fn lemma_map_of_at_unique<V>(entries: Seq<(String, V)>, i: int)
    requires
        0 <= i < entries.len(),
        forall|p: int, q: int| 0 <= p < q < entries.len() ==> entries[p].0@ != entries[q].0@,
    ensures
        map_of(entries).contains_key(entries[i].0@),
        map_of(entries)[entries[i].0@] == entries[i].1,
    decreases entries.len(),
{
    if i < entries.len() - 1 {
        lemma_map_of_at_unique(entries.drop_last(), i);
        assert(entries.last().0@ != entries[i].0@);
    }
}

proof fn lemma_map_of_key_at<V>(entries: Seq<(String, V)>, i: int)
    requires
        0 <= i < entries.len(),
    ensures
        map_of(entries).contains_key(entries[i].0@),
    decreases entries.len(),
{
    if i < entries.len() - 1 {
        lemma_map_of_key_at(entries.drop_last(), i);
    }
}

proof fn lemma_map_of_absent<V>(entries: Seq<(String, V)>, k: Seq<char>)
    requires
        forall|j: int| 0 <= j < entries.len() ==> entries[j].0@ != k,
    ensures
        !map_of(entries).contains_key(k),
    decreases entries.len(),
{
    if entries.len() > 0 {
        assert(entries.last() == entries[entries.len() - 1]);
        lemma_map_of_absent(entries.drop_last(), k);
    }
}

/// Overwriting the value at position `i` (whose key is unique) updates the map.
proof fn lemma_map_of_update_value<V>(entries: Seq<(String, V)>, i: int, v: V)
    requires
        0 <= i < entries.len(),
        forall|p: int, q: int| 0 <= p < q < entries.len() ==> entries[p].0@ != entries[q].0@,
    ensures
        map_of(entries.update(i, (entries[i].0, v))) == map_of(entries).insert(entries[i].0@, v),
    decreases entries.len(),
{
    let updated = entries.update(i, (entries[i].0, v));
    if i == entries.len() - 1 {
        assert(updated.drop_last() =~= entries.drop_last());
        assert(map_of(updated) =~= map_of(entries).insert(entries[i].0@, v));
    } else {
        lemma_map_of_update_value(entries.drop_last(), i, v);
        assert(updated.drop_last() =~= entries.drop_last().update(i, (entries[i].0, v)));
        assert(updated.last() == entries.last());
        assert(map_of(updated) =~= map_of(entries).insert(entries[i].0@, v));
    }
}

/// Removing the entry at position `i` (whose key is unique) removes the key.
proof fn lemma_map_of_remove_at<V>(entries: Seq<(String, V)>, i: int)
    requires
        0 <= i < entries.len(),
        forall|p: int, q: int| 0 <= p < q < entries.len() ==> entries[p].0@ != entries[q].0@,
    ensures
        map_of(entries.remove(i)) == map_of(entries).remove(entries[i].0@),
    decreases entries.len(),
{
    let removed = entries.remove(i);
    if i == entries.len() - 1 {
        assert(removed =~= entries.drop_last());
        lemma_map_of_absent_of_unique(entries.drop_last(), entries[i].0@, entries);
        assert(map_of(removed) =~= map_of(entries).remove(entries[i].0@));
    } else {
        lemma_map_of_remove_at(entries.drop_last(), i);
        assert(removed.drop_last() =~= entries.drop_last().remove(i));
        assert(removed.last() == entries.last());
        assert(map_of(removed) =~= map_of(entries).remove(entries[i].0@));
    }
}

/// A key unique to the last entry is absent from the rest.
proof fn lemma_map_of_absent_of_unique<V>(rest: Seq<(String, V)>, k: Seq<char>, whole: Seq<(String, V)>)
    requires
        whole.len() > 0,
        rest == whole.drop_last(),
        k == whole[whole.len() - 1].0@,
        forall|p: int, q: int| 0 <= p < q < whole.len() ==> whole[p].0@ != whole[q].0@,
    ensures
        !map_of(rest).contains_key(k),
{
    assert(forall|j: int| 0 <= j < rest.len() ==> rest[j].0@ != k);
    lemma_map_of_absent(rest, k);
}

} // verus!

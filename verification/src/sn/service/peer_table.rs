use vstd::prelude::*;
use crate::types::P2pId;

verus! {

/// Keys of a [`KeyedTable`]: compared and copied by their view.
pub trait TableKey: View + Sized {
    fn same_key(&self, other: &Self) -> (r: bool)
        ensures
            r == (self@ == other@),
    ;

    fn copy_key(&self) -> (r: Self)
        ensures
            r@ == self@,
    ;
}

impl TableKey for P2pId {
    fn same_key(&self, other: &Self) -> (r: bool) {
        self.same_as(other)
    }

    fn copy_key(&self) -> (r: Self) {
        self.duplicate()
    }
}

/// No two entries hold the same peer identifier.
pub open spec fn keys_unique<K: View, V>(s: Seq<(K, V)>) -> bool {
    forall|i: int, j: int|
        0 <= i < s.len() && 0 <= j < s.len() && i != j ==> #[trigger] s[i].0@ != #[trigger] s[j].0@
}

/// `r` lists a key whose view is `k`.
pub open spec fn spec_lists_key<K: View>(r: Seq<K>, k: K::V) -> bool {
    exists|j: int| 0 <= j < r.len() && r[j]@ == k
}

pub open spec fn seq_has_key<K: View, V>(s: Seq<(K, V)>, k: K::V) -> bool {
    exists|i: int| 0 <= i < s.len() && #[trigger] s[i].0@ == k
}

/// The map from identifier bytes to value that an entry list stands for.
pub open spec fn seq_to_map<K: View, V>(s: Seq<(K, V)>) -> Map<K::V, V> {
    Map::new(
        |k: K::V| seq_has_key(s, k),
        |k: K::V| s[choose|i: int| 0 <= i < s.len() && #[trigger] s[i].0@ == k].1,
    )
}

/// Changing the value at one position of an entry list with unique keys
/// changes the map at that position's key only.
pub proof fn lemma_update_value<K: View, V>(s: Seq<(K, V)>, i: int, v: V)
    requires
        keys_unique(s),
        0 <= i < s.len(),
    ensures
        keys_unique(s.update(i, (s[i].0, v))),
        seq_to_map(s.update(i, (s[i].0, v))) == seq_to_map(s).insert(s[i].0@, v),
{
    let t = s.update(i, (s[i].0, v));
    let k = s[i].0@;
    assert forall|a: int, b: int|
        0 <= a < t.len() && 0 <= b < t.len() && a != b implies #[trigger] t[a].0@ != #[trigger] t[b].0@ by {
        assert(s[a].0@ != s[b].0@);
    }
    lemma_seq_to_map_all(s);
    lemma_seq_to_map_all(t);
    let m_old = seq_to_map(s);
    let m_new = seq_to_map(t);
    assert forall|key2: K::V| #[trigger] m_new.dom().contains(key2) <==> m_old.insert(k, v).dom().contains(key2) by {
        if m_new.dom().contains(key2) {
            let j = choose|j: int| 0 <= j < t.len() && #[trigger] t[j].0@ == key2;
            assert(s[j].0@ == key2);
        }
        if m_old.dom().contains(key2) {
            let j = choose|j: int| 0 <= j < s.len() && #[trigger] s[j].0@ == key2;
            assert(t[j].0@ == key2);
        }
    }
    assert forall|key2: K::V| #[trigger] m_new.dom().contains(key2) implies m_new[key2] == m_old.insert(k, v)[key2] by {
        let j = choose|j: int| 0 <= j < t.len() && #[trigger] t[j].0@ == key2;
        assert(s[j].0@ == key2);
    }
    assert(m_new =~= m_old.insert(k, v));
}

/// The map of an entry list with unique keys holds each entry's value.
pub proof fn lemma_seq_to_map_at<K: View, V>(s: Seq<(K, V)>, i: int)
    requires
        keys_unique(s),
        0 <= i < s.len(),
    ensures
        seq_to_map(s).dom().contains(s[i].0@),
        seq_to_map(s)[s[i].0@] == s[i].1,
{
    let k = s[i].0@;
    assert(seq_has_key(s, k));
    let j = choose|j: int| 0 <= j < s.len() && #[trigger] s[j].0@ == k;
    assert(j == i);
}

/// The map of an entry list with unique keys holds every entry's value.
pub proof fn lemma_seq_to_map_all<K: View, V>(s: Seq<(K, V)>)
    requires
        keys_unique(s),
    ensures
        forall|i: int|
            0 <= i < s.len() ==> #[trigger] seq_to_map(s).dom().contains(s[i].0@) && seq_to_map(
                s,
            )[s[i].0@] == s[i].1,
{
    assert forall|i: int|
        0 <= i < s.len() implies #[trigger] seq_to_map(s).dom().contains(s[i].0@) && seq_to_map(
            s,
        )[s[i].0@] == s[i].1 by {
        lemma_seq_to_map_at(s, i);
    }
}

/// A table of values keyed by `K`, each key once.
///
/// The keys here are byte strings and structs of them (peer ids, call
/// keys), for which Verus proves nothing of a `HashMap`'s lookups; the
/// table keeps its entries in a `Vec` with each key at most once, so that
/// every lookup, insertion and removal is proved against a `Map` view.
pub struct KeyedTable<K, V> {
    entries: Vec<(K, V)>,
}

/// A table of per-peer values keyed by peer identifier.
pub type PeerTable<V> = KeyedTable<P2pId, V>;

impl<K: TableKey, V> View for KeyedTable<K, V> {
    type V = Map<K::V, V>;

    closed spec fn view(&self) -> Map<K::V, V> {
        seq_to_map(self.entries@)
    }
}

impl<K: TableKey, V> KeyedTable<K, V> {
    pub closed spec fn wf(&self) -> bool {
        keys_unique(self.entries@)
    }

    pub closed spec fn spec_len(&self) -> nat {
        self.entries@.len()
    }

    pub closed spec fn key_at(&self, i: int) -> K::V {
        self.entries@[i].0@
    }

    pub closed spec fn value_at(&self, i: int) -> V {
        self.entries@[i].1
    }

    /// Positions and keys of a well-formed table describe its map exactly.
    pub proof fn lemma_positions(&self)
        requires
            self.wf(),
        ensures
            forall|i: int|
                0 <= i < self.spec_len() ==> #[trigger] self@.dom().contains(self.key_at(i))
                    && self@[self.key_at(i)] == self.value_at(i),
            forall|k: K::V|
                #[trigger] self@.dom().contains(k) ==> exists|i: int|
                    0 <= i < self.spec_len() && self.key_at(i) == k,
            forall|i: int, j: int|
                0 <= i < self.spec_len() && 0 <= j < self.spec_len() && i != j ==> self.key_at(i)
                    != self.key_at(j),
    {
        lemma_seq_to_map_all(self.entries@);
        assert forall|k: K::V| #[trigger] self@.dom().contains(k) implies exists|i: int|
            0 <= i < self.spec_len() && self.key_at(i) == k by {
            let i = choose|i: int| 0 <= i < self.entries@.len() && #[trigger] self.entries@[i].0@ == k;
            assert(self.key_at(i) == k);
        }
        assert forall|i: int, j: int|
            0 <= i < self.spec_len() && 0 <= j < self.spec_len() && i != j implies self.key_at(i)
            != self.key_at(j) by {
            assert(self.entries@[i].0@ != self.entries@[j].0@);
        }
    }

    /// Number of the first `n` positions whose key satisfies `f`.
    pub open spec fn count_positions(&self, f: spec_fn(K::V) -> bool, n: int) -> nat
        decreases n,
    {
        if n <= 0 {
            0
        } else {
            self.count_positions(f, n - 1) + if f(self.key_at(n - 1)) {
                1nat
            } else {
                0nat
            }
        }
    }

    pub closed spec fn prefix_keys(&self, n: int) -> Set<K::V> {
        Set::new(|k: K::V| exists|i: int| 0 <= i < n && self.key_at(i) == k)
    }

    proof fn lemma_count_prefix(&self, f: spec_fn(K::V) -> bool, n: int)
        requires
            self.wf(),
            0 <= n <= self.spec_len(),
        ensures
            self.prefix_keys(n).finite(),
            self.prefix_keys(n).filter(f).len() == self.count_positions(f, n),
        decreases n,
    {
        if n == 0 {
            assert(self.prefix_keys(0) =~= Set::<K::V>::empty());
            assert(self.prefix_keys(0).filter(f) =~= Set::<K::V>::empty());
        } else {
            self.lemma_count_prefix(f, n - 1);
            self.lemma_positions();
            let k = self.key_at(n - 1);
            let prev = self.prefix_keys(n - 1);
            assert(self.prefix_keys(n) =~= prev.insert(k));
            assert(!prev.contains(k)) by {
                if prev.contains(k) {
                    let i = choose|i: int| 0 <= i < n - 1 && self.key_at(i) == k;
                    assert(self.key_at(i) != self.key_at(n - 1));
                }
            }
            prev.lemma_len_filter(f);
            if f(k) {
                assert(self.prefix_keys(n).filter(f) =~= prev.filter(f).insert(k));
                assert(!prev.filter(f).contains(k));
            } else {
                assert(self.prefix_keys(n).filter(f) =~= prev.filter(f));
            }
        }
    }

    /// Counting positions whose key satisfies `f` counts the keys of the map
    /// that satisfy it.
    pub proof fn lemma_count(&self, f: spec_fn(K::V) -> bool)
        requires
            self.wf(),
        ensures
            self@.dom().finite(),
            self@.dom().filter(f).len() == self.count_positions(f, self.spec_len() as int),
    {
        self.lemma_count_prefix(f, self.spec_len() as int);
        self.lemma_positions();
        assert(self.prefix_keys(self.spec_len() as int) =~= self@.dom());
    }

    proof fn lemma_count_all(&self, n: int)
        requires
            0 <= n,
        ensures
            self.count_positions(|k: K::V| true, n) == n,
        decreases n,
    {
        if n > 0 {
            self.lemma_count_all(n - 1);
        }
    }

    /// A well-formed table holds as many entries as its map has keys.
    pub proof fn lemma_len(&self)
        requires
            self.wf(),
        ensures
            self@.dom().finite(),
            self@.dom().len() == self.spec_len(),
    {
        let f = |k: K::V| true;
        self.lemma_count(f);
        self.lemma_count_all(self.spec_len() as int);
        assert(self@.dom().filter(f) =~= self@.dom());
    }

    pub fn new() -> (r: Self)
        ensures
            r.wf(),
            r@ == Map::<K::V, V>::empty(),
            r.spec_len() == 0,
    {
        let r = KeyedTable { entries: Vec::new() };
        assert(r@ =~= Map::<K::V, V>::empty());
        r
    }

    pub fn len(&self) -> (r: usize)
        ensures
            r == self.spec_len(),
    {
        self.entries.len()
    }

    pub fn key_ref_at(&self, i: usize) -> (r: &K)
        requires
            i < self.spec_len(),
        ensures
            r@ == self.key_at(i as int),
    {
        &self.entries[i].0
    }

    pub fn value_ref_at(&self, i: usize) -> (r: &V)
        requires
            i < self.spec_len(),
        ensures
            *r == self.value_at(i as int),
    {
        &self.entries[i].1
    }

    /// Position of `id`, if present.
    pub fn index_of(&self, id: &K) -> (r: Option<usize>)
        requires
            self.wf(),
        ensures
            match r {
                Some(i) => i < self.spec_len() && self.key_at(i as int) == id@
                    && self@.dom().contains(id@) && self@[id@] == self.value_at(i as int),
                None => !self@.dom().contains(id@),
            },
    {
        let mut i: usize = 0;
        while i < self.entries.len()
            invariant
                keys_unique(self.entries@),
                i <= self.entries@.len(),
                forall|j: int| 0 <= j < i ==> self.entries@[j].0@ != id@,
            decreases self.entries.len() - i,
        {
            if self.entries[i].0.same_key(id) {
                proof {
                    lemma_seq_to_map_at(self.entries@, i as int);
                }
                return Some(i);
            }
            i = i + 1;
        }
        proof {
            if seq_has_key(self.entries@, id@) {
                let j = choose|j: int| 0 <= j < self.entries@.len() && #[trigger] self.entries@[j].0@ == id@;
                assert(self.entries@[j].0@ != id@);
            }
        }
        None
    }

    pub fn contains(&self, id: &K) -> (r: bool)
        requires
            self.wf(),
        ensures
            r == self@.dom().contains(id@),
    {
        self.index_of(id).is_some()
    }

    pub fn get_ref(&self, id: &K) -> (r: Option<&V>)
        requires
            self.wf(),
        ensures
            match r {
                Some(v) => self@.dom().contains(id@) && *v == self@[id@],
                None => !self@.dom().contains(id@),
            },
    {
        match self.index_of(id) {
            Some(i) => Some(&self.entries[i].1),
            None => None,
        }
    }

    /// Replaces the value at position `i`, keeping every key where it is;
    /// returns the value that was there.
    pub fn replace_value_at(&mut self, i: usize, v: V) -> (r: V)
        requires
            old(self).wf(),
            i < old(self).spec_len(),
        ensures
            r == old(self).value_at(i as int),
            final(self).wf(),
            final(self).spec_len() == old(self).spec_len(),
            forall|j: int| 0 <= j < old(self).spec_len() ==> final(self).key_at(j) == old(self).key_at(j),
            forall|j: int|
                0 <= j < old(self).spec_len() && j != i ==> final(self).value_at(j) == old(self).value_at(j),
            final(self).value_at(i as int) == v,
            final(self)@ == old(self)@.insert(old(self).key_at(i as int), v),
    {
        let ghost old_entries = self.entries@;
        let (key, old_v) = self.entries.remove(i);
        let ghost k = key@;
        self.entries.insert(i, (key, v));
        assert(self.entries@ =~= old_entries.update(i as int, (key, v)));
        proof {
            let s = self.entries@;
            assert(s.len() == old_entries.len());
            assert forall|a: int, b: int|
                0 <= a < s.len() && 0 <= b < s.len() && a != b implies #[trigger] s[a].0@
                != #[trigger] s[b].0@ by {
                assert(old_entries[a].0@ != old_entries[b].0@);
            }
            lemma_seq_to_map_all(old_entries);
            lemma_seq_to_map_all(s);
            let m_old = seq_to_map(old_entries);
            let m_new = seq_to_map(s);
            assert forall|key2: K::V| #[trigger] m_new.dom().contains(key2) <==> m_old.insert(
                k,
                v,
            ).dom().contains(key2) by {
                if m_new.dom().contains(key2) {
                    let j = choose|j: int| 0 <= j < s.len() && #[trigger] s[j].0@ == key2;
                    assert(old_entries[j].0@ == key2);
                }
                if m_old.dom().contains(key2) {
                    let j = choose|j: int| 0 <= j < old_entries.len() && #[trigger] old_entries[j].0@ == key2;
                    assert(s[j].0@ == key2);
                }
            }
            assert forall|key2: K::V| #[trigger] m_new.dom().contains(key2) implies m_new[key2]
                == m_old.insert(k, v)[key2] by {
                let j = choose|j: int| 0 <= j < s.len() && #[trigger] s[j].0@ == key2;
                assert(old_entries[j].0@ == key2);
            }
            assert(m_new =~= m_old.insert(k, v));
        }
        old_v
    }

    /// The value at position `i`, to be changed in place; every key stays
    /// where it is.
    pub fn value_mut_at(&mut self, i: usize) -> (r: &mut V)
        requires
            old(self).wf(),
            i < old(self).spec_len(),
        ensures
            *r == old(self).value_at(i as int),
            final(self).wf(),
            final(self).spec_len() == old(self).spec_len(),
            forall|j: int| 0 <= j < old(self).spec_len() ==> final(self).key_at(j) == old(self).key_at(j),
            forall|j: int|
                0 <= j < old(self).spec_len() && j != i ==> final(self).value_at(j) == old(self).value_at(j),
            final(self).value_at(i as int) == *final(r),
            final(self)@ == old(self)@.insert(old(self).key_at(i as int), *final(r)),
    {
        let ghost old_entries = self.entries@;
        let e = &mut self.entries[i];
        proof {
            lemma_update_value(old_entries, i as int, final(e).1);
        }
        &mut e.1
    }

    /// Replaces the value at position `i`, keeping every key where it is.
    pub fn set_value_at(&mut self, i: usize, v: V)
        requires
            old(self).wf(),
            i < old(self).spec_len(),
        ensures
            final(self).wf(),
            final(self).spec_len() == old(self).spec_len(),
            forall|j: int| 0 <= j < old(self).spec_len() ==> final(self).key_at(j) == old(self).key_at(j),
            forall|j: int|
                0 <= j < old(self).spec_len() && j != i ==> final(self).value_at(j) == old(self).value_at(j),
            final(self).value_at(i as int) == v,
            final(self)@ == old(self)@.insert(old(self).key_at(i as int), v),
    {
        let _ = self.replace_value_at(i, v);
    }

    /// Inserts `v` under `id`, replacing any value already there.
    pub fn insert(&mut self, id: K, v: V)
        requires
            old(self).wf(),
        ensures
            final(self).wf(),
            final(self)@ == old(self)@.insert(id@, v),
    {
        match self.index_of(&id) {
            Some(i) => {
                self.set_value_at(i, v);
            },
            None => {
                let ghost old_entries = self.entries@;
                let ghost k = id@;
                self.entries.push((id, v));
                proof {
                    let s = self.entries@;
                    assert(!seq_has_key(old_entries, k));
                    assert forall|a: int, b: int|
                        0 <= a < s.len() && 0 <= b < s.len() && a != b implies #[trigger] s[a].0@
                        != #[trigger] s[b].0@ by {
                        if a < old_entries.len() && b < old_entries.len() {
                            assert(old_entries[a].0@ != old_entries[b].0@);
                        } else if a == old_entries.len() {
                            assert(old_entries[b].0@ != k);
                        } else {
                            assert(old_entries[a].0@ != k);
                        }
                    }
                    lemma_seq_to_map_all(old_entries);
                    lemma_seq_to_map_all(s);
                    let m_old = seq_to_map(old_entries);
                    let m_new = seq_to_map(s);
                    assert forall|key2: K::V| #[trigger] m_new.dom().contains(key2) <==> m_old.insert(
                        k,
                        v,
                    ).dom().contains(key2) by {
                        if m_new.dom().contains(key2) && key2 != k {
                            let j = choose|j: int| 0 <= j < s.len() && #[trigger] s[j].0@ == key2;
                            assert(j < old_entries.len());
                            assert(old_entries[j].0@ == key2);
                        }
                        if m_old.dom().contains(key2) {
                            let j = choose|j: int| 0 <= j < old_entries.len() && #[trigger] old_entries[j].0@ == key2;
                            assert(s[j].0@ == key2);
                        }
                        if key2 == k {
                            assert(s[old_entries.len() as int].0@ == k);
                        }
                    }
                    assert forall|key2: K::V| #[trigger] m_new.dom().contains(key2) implies m_new[key2]
                        == m_old.insert(k, v)[key2] by {
                        let j = choose|j: int| 0 <= j < s.len() && #[trigger] s[j].0@ == key2;
                        if j < old_entries.len() {
                            assert(old_entries[j].0@ == key2);
                        }
                    }
                    assert(m_new =~= m_old.insert(k, v));
                }
            },
        }
    }

    /// Removes the entry of `id`; returns its value if there was one.
    pub fn remove(&mut self, id: &K) -> (r: Option<V>)
        requires
            old(self).wf(),
        ensures
            final(self).wf(),
            final(self)@ == old(self)@.remove(id@),
            r == (if old(self)@.dom().contains(id@) { Some(old(self)@[id@]) } else { None::<V> }),
    {
        match self.index_of(id) {
            Some(i) => {
                let ghost old_entries = self.entries@;
                let ghost k = id@;
                let (_, v) = self.entries.remove(i);
                proof {
                    let s = self.entries@;
                    assert(s =~= old_entries.remove(i as int));
                    assert forall|a: int, b: int|
                        0 <= a < s.len() && 0 <= b < s.len() && a != b implies #[trigger] s[a].0@
                        != #[trigger] s[b].0@ by {
                        let a2 = if a < i { a } else { a + 1 };
                        let b2 = if b < i { b } else { b + 1 };
                        assert(old_entries[a2].0@ != old_entries[b2].0@);
                    }
                    lemma_seq_to_map_all(old_entries);
                    lemma_seq_to_map_all(s);
                    let m_old = seq_to_map(old_entries);
                    let m_new = seq_to_map(s);
                    assert forall|key2: K::V| #[trigger] m_new.dom().contains(key2) <==> m_old.remove(
                        k,
                    ).dom().contains(key2) by {
                        if m_new.dom().contains(key2) {
                            let j = choose|j: int| 0 <= j < s.len() && #[trigger] s[j].0@ == key2;
                            let j2 = if j < i { j } else { j + 1 };
                            assert(old_entries[j2].0@ == key2);
                            assert(j2 != i);
                            assert(old_entries[i as int].0@ != key2);
                        }
                        if m_old.dom().contains(key2) && key2 != k {
                            let j = choose|j: int| 0 <= j < old_entries.len() && #[trigger] old_entries[j].0@ == key2;
                            assert(j != i);
                            let j2 = if j < i { j } else { j - 1 };
                            assert(s[j2].0@ == key2);
                        }
                    }
                    assert forall|key2: K::V| #[trigger] m_new.dom().contains(key2) implies m_new[key2]
                        == m_old.remove(k)[key2] by {
                        let j = choose|j: int| 0 <= j < s.len() && #[trigger] s[j].0@ == key2;
                        let j2 = if j < i { j } else { j + 1 };
                        assert(old_entries[j2].0@ == key2);
                    }
                    assert(m_new =~= m_old.remove(k));
                }
                Some(v)
            },
            None => {
                assert(self@ =~= self@.remove(id@));
                None
            },
        }
    }

    /// Keeps exactly the entries at the positions flagged in `keep`.
    pub fn retain_positions(&mut self, keep: &Vec<bool>)
        requires
            old(self).wf(),
            keep@.len() == old(self).spec_len(),
        ensures
            final(self).wf(),
            forall|k: K::V|
                #[trigger] final(self)@.dom().contains(k) ==> old(self)@.dom().contains(k)
                    && final(self)@[k] == old(self)@[k],
            forall|i: int|
                0 <= i < old(self).spec_len() ==> (#[trigger] final(self)@.dom().contains(
                    old(self).key_at(i),
                ) <==> keep@[i]),
    {
        let ghost old_entries = self.entries@;
        let mut rest: Vec<(K, V)> = Vec::new();
        std::mem::swap(&mut self.entries, &mut rest);
        let n = rest.len();
        let mut out: Vec<(K, V)> = Vec::new();
        let ghost mut picked: Seq<int> = Seq::empty();
        let mut i: usize = 0;
        while i < n
            invariant
                n == old_entries.len(),
                rest@ == old_entries.subrange(i as int, n as int),
                keys_unique(old_entries),
                keep@.len() == old_entries.len(),
                i <= old_entries.len(),
                out@.len() == picked.len(),
                forall|a: int| 0 <= a < picked.len() ==> 0 <= #[trigger] picked[a] < i,
                forall|a: int, b: int| 0 <= a < b < picked.len() ==> picked[a] < picked[b],
                forall|a: int|
                    0 <= a < picked.len() ==> #[trigger] out@[a].0@ == old_entries[picked[a]].0@
                        && out@[a].1 == old_entries[picked[a]].1,
                forall|j: int|
                    0 <= j < i ==> (keep@[j] <==> exists|a: int|
                        0 <= a < picked.len() && #[trigger] picked[a] == j),
            decreases old_entries.len() - i,
        {
            let ghost picked_before = picked;
            let ghost out_before = out@;
            let (k, v) = rest.remove(0);
            assert(rest@ =~= old_entries.subrange(i + 1, n as int));
            assert((k, v) == old_entries[i as int]);
            if keep[i] {
                out.push((k, v));
                proof {
                    picked = picked.push(i as int);
                }
            }
            proof {
                assert forall|a: int|
                    0 <= a < picked.len() implies #[trigger] out@[a].0@ == old_entries[picked[a]].0@
                    && out@[a].1 == old_entries[picked[a]].1 by {
                    if a < picked_before.len() {
                        assert(out@[a] == out_before[a]);
                        assert(picked[a] == picked_before[a]);
                    }
                }
                assert forall|j: int|
                    0 <= j < i + 1 implies (keep@[j] <==> exists|a: int|
                    0 <= a < picked.len() && #[trigger] picked[a] == j) by {
                    if j < i {
                        if exists|a: int| 0 <= a < picked_before.len() && #[trigger] picked_before[a] == j {
                            let a = choose|a: int| 0 <= a < picked_before.len() && #[trigger] picked_before[a] == j;
                            assert(picked[a] == j);
                        }
                        if exists|a: int| 0 <= a < picked.len() && #[trigger] picked[a] == j {
                            let a = choose|a: int| 0 <= a < picked.len() && #[trigger] picked[a] == j;
                            if keep@[i as int] {
                                assert(a < picked_before.len());
                            }
                            assert(picked_before[a] == j);
                        }
                    } else {
                        if keep@[i as int] {
                            assert(picked[picked.len() - 1] == j);
                        } else {
                            if exists|a: int| 0 <= a < picked.len() && #[trigger] picked[a] == j {
                                let a = choose|a: int| 0 <= a < picked.len() && #[trigger] picked[a] == j;
                                assert(picked[a] < i);
                            }
                        }
                    }
                }
            }
            i = i + 1;
        }
        self.entries = out;
        proof {
            let s = self.entries@;
            assert forall|a: int, b: int|
                0 <= a < s.len() && 0 <= b < s.len() && a != b implies #[trigger] s[a].0@
                != #[trigger] s[b].0@ by {
                assert(picked[a] != picked[b]) by {
                    if a < b {
                        assert(picked[a] < picked[b]);
                    } else {
                        assert(picked[b] < picked[a]);
                    }
                }
                assert(old_entries[picked[a]].0@ != old_entries[picked[b]].0@);
            }
            lemma_seq_to_map_all(old_entries);
            lemma_seq_to_map_all(s);
            assert forall|k: K::V| #[trigger] seq_to_map(s).dom().contains(k) implies seq_to_map(
                old_entries,
            ).dom().contains(k) && seq_to_map(s)[k] == seq_to_map(old_entries)[k] by {
                let a = choose|a: int| 0 <= a < s.len() && #[trigger] s[a].0@ == k;
                let j = picked[a];
                assert(old_entries[j].0@ == k);
                assert(seq_to_map(s)[s[a].0@] == s[a].1);
                assert(seq_to_map(old_entries)[old_entries[j].0@] == old_entries[j].1);
            }
            assert forall|j: int|
                0 <= j < old_entries.len() implies (#[trigger] seq_to_map(s).dom().contains(
                old_entries[j].0@,
            ) <==> keep@[j]) by {
                if keep@[j] {
                    let a = choose|a: int| 0 <= a < picked.len() && #[trigger] picked[a] == j;
                    assert(s[a].0@ == old_entries[j].0@);
                }
                if seq_to_map(s).dom().contains(old_entries[j].0@) {
                    let a = choose|a: int| 0 <= a < s.len() && #[trigger] s[a].0@ == old_entries[j].0@;
                    let j2 = picked[a];
                    assert(old_entries[j2].0@ == old_entries[j].0@);
                    assert(j2 == j);
                }
            }
        }
    }

    /// `k` is the key at a position not flagged in `keep`.
    pub open spec fn spec_unkept_key(&self, keep: Seq<bool>, k: K::V) -> bool {
        exists|p: int| 0 <= p < keep.len() && !keep[p] && self.key_at(p) == k
    }

    /// Copies of the keys at the positions not flagged in `keep`.
    pub fn keys_not_kept(&self, keep: &Vec<bool>) -> (r: Vec<K>)
        requires
            keep@.len() == self.spec_len(),
        ensures
            forall|j: int| 0 <= j < r@.len() ==> #[trigger] self.spec_unkept_key(keep@, r@[j]@),
            forall|p: int| 0 <= p < keep@.len() && !keep@[p] ==> #[trigger] spec_lists_key(r@, self.key_at(p)),
    {
        let n = keep.len();
        let mut out: Vec<K> = Vec::new();
        let mut i: usize = 0;
        while i < n
            invariant
                n == keep@.len(),
                n == self.entries@.len(),
                i <= n,
                forall|j: int| 0 <= j < out@.len() ==> #[trigger] self.spec_unkept_key(keep@, out@[j]@),
                forall|p: int| 0 <= p < i && !keep@[p] ==> #[trigger] spec_lists_key(out@, self.key_at(p)),
            decreases n - i,
        {
            let ghost before = out@;
            if !keep[i] {
                out.push(self.entries[i].0.copy_key());
                assert(out@[before.len() as int]@ == self.key_at(i as int));
                assert(self.spec_unkept_key(keep@, out@[before.len() as int]@));
            }
            assert forall|j: int| 0 <= j < out@.len() implies #[trigger] self.spec_unkept_key(keep@, out@[j]@) by {
                if j < before.len() {
                    assert(out@[j] == before[j]);
                }
            }
            assert forall|p: int| 0 <= p < i + 1 && !keep@[p] implies #[trigger] spec_lists_key(out@, self.key_at(p)) by {
                if p < i {
                    assert(spec_lists_key(before, self.key_at(p)));
                    let j = choose|j: int| 0 <= j < before.len() && before[j]@ == self.key_at(p);
                    assert(out@[j] == before[j]);
                } else {
                    assert(out@[before.len() as int]@ == self.key_at(p));
                }
            }
            i = i + 1;
        }
        out
    }

    pub fn clear(&mut self)
        ensures
            final(self).wf(),
            final(self)@ == Map::<K::V, V>::empty(),
            final(self).spec_len() == 0,
    {
        self.entries = Vec::new();
        assert(self@ =~= Map::<K::V, V>::empty());
    }

    /// Empties the table, answering its values in position order.
    pub fn drain_values(&mut self) -> (r: Vec<V>)
        ensures
            final(self).wf(),
            final(self)@ == Map::<K::V, V>::empty(),
            final(self).spec_len() == 0,
            r@.len() == old(self).spec_len(),
            forall|i: int| 0 <= i < r@.len() ==> r@[i] == old(self).value_at(i),
    {
        let mut rest: Vec<(K, V)> = Vec::new();
        std::mem::swap(&mut self.entries, &mut rest);
        let ghost all = rest@;
        let n = rest.len();
        let mut out: Vec<V> = Vec::new();
        let mut i: usize = 0;
        while i < n
            invariant
                n == all.len(),
                i <= n,
                rest@ == all.subrange(i as int, n as int),
                out@.len() == i,
                forall|j: int| 0 <= j < i ==> out@[j] == all[j].1,
            decreases n - i,
        {
            let (_, v) = rest.remove(0);
            out.push(v);
            i = i + 1;
            assert(rest@ =~= all.subrange(i as int, n as int));
        }
        assert(self@ =~= Map::<K::V, V>::empty());
        out
    }

    /// Identifiers of all entries, each once.
    pub fn keys(&self) -> (r: Vec<K>)
        requires
            self.wf(),
        ensures
            r@.len() == self.spec_len(),
            forall|i: int| 0 <= i < r@.len() ==> #[trigger] r@[i]@ == self.key_at(i),
    {
        let mut out: Vec<K> = Vec::new();
        let mut i: usize = 0;
        while i < self.entries.len()
            invariant
                i <= self.entries@.len(),
                out@.len() == i,
                forall|j: int| 0 <= j < i ==> #[trigger] out@[j]@ == self.entries@[j].0@,
            decreases self.entries.len() - i,
        {
            out.push(self.entries[i].0.copy_key());
            i = i + 1;
        }
        out
    }
}

impl<K: TableKey, V: Copy> KeyedTable<K, V> {
    pub fn value_at_index(&self, i: usize) -> (r: V)
        requires
            i < self.spec_len(),
        ensures
            r == self.value_at(i as int),
    {
        self.entries[i].1
    }

    pub fn get(&self, id: &K) -> (r: Option<V>)
        requires
            self.wf(),
        ensures
            r == (if self@.dom().contains(id@) { Some(self@[id@]) } else { None::<V> }),
    {
        match self.index_of(id) {
            Some(i) => Some(self.entries[i].1),
            None => None,
        }
    }
}

} // verus!

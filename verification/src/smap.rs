//! A string-keyed association map with a mathematical `Map` view.  The store,
//! the watch table and the channel registry are each one of these; the whole
//! structure is guarded by one coarse lock in the process around the library,
//! so a plain vector of entries is the honest model of it.
use vstd::prelude::*;
use vstd::pervasive::VecAdditionalExecFns;

verus! {

/// The largest element of a sequence of numbers, zero for an empty one.
pub open spec fn seq_max(s: Seq<u64>) -> u64
    decreases s.len(),
{
    if s.len() == 0 {
        0
    } else if s.last() >= seq_max(s.drop_last()) {
        s.last()
    } else {
        seq_max(s.drop_last())
    }
}

/// No element exceeds the maximum.
pub proof fn lemma_seq_max_ge(s: Seq<u64>, i: int)
    requires
        0 <= i < s.len(),
    ensures
        s[i] <= seq_max(s),
    decreases s.len(),
{
    if i < s.len() - 1 {
        assert(s.drop_last()[i] == s[i]);
        lemma_seq_max_ge(s.drop_last(), i);
    }
}

/// A non-empty sequence contains its maximum.
pub proof fn lemma_seq_max_in(s: Seq<u64>)
    requires
        s.len() > 0,
    ensures
        s.contains(seq_max(s)),
    decreases s.len(),
{
    if s.len() > 1 && s.last() < seq_max(s.drop_last()) {
        lemma_seq_max_in(s.drop_last());
        let i = choose|i: int|
            0 <= i < s.len() - 1 && s.drop_last()[i] == seq_max(s.drop_last());
        assert(s[i] == seq_max(s));
    } else {
        if s.len() == 1 {
            assert(s.drop_last() =~= Seq::<u64>::empty());
            assert(seq_max(Seq::<u64>::empty()) == 0);
        }
        assert(s[s.len() - 1] == seq_max(s));
    }
}

/// No two keys are the same.
pub open spec fn uniq_keys<K>(ks: Seq<K>) -> bool {
    forall|i: int, j: int| 0 <= i < j < ks.len() ==> ks[i] != ks[j]
}

/// Removing an entry keeps the remaining keys distinct.
pub proof fn lemma_uniq_remove<K>(ks: Seq<K>, i: int)
    requires
        uniq_keys(ks),
        0 <= i < ks.len(),
    ensures
        uniq_keys(ks.remove(i)),
{
    assert forall|a: int, b: int| 0 <= a < b < ks.remove(i).len() implies ks.remove(i)[a]
        != ks.remove(i)[b] by {
        let ra = if a < i {
            a
        } else {
            a + 1
        };
        let rb = if b < i {
            b
        } else {
            b + 1
        };
        assert(ks.remove(i)[a] == ks[ra]);
        assert(ks.remove(i)[b] == ks[rb]);
    }
}

/// The map that a key column and a value column denote, later entries
/// winning.
pub open spec fn kv_map<K, T>(ks: Seq<K>, vs: Seq<T>) -> Map<K, T>
    decreases ks.len(),
{
    if ks.len() == 0 || vs.len() == 0 {
        Map::<K, T>::empty()
    } else {
        kv_map(ks.drop_last(), vs.drop_last()).insert(ks.last(), vs.last())
    }
}

/// A key is in the map exactly when it is in the key column.
pub proof fn lemma_kv_map_domain<K, T>(ks: Seq<K>, vs: Seq<T>, k: K)
    requires
        ks.len() == vs.len(),
    ensures
        kv_map(ks, vs).contains_key(k) <==> exists|i: int| 0 <= i < ks.len() && ks[i] == k,
    decreases ks.len(),
{
    if ks.len() > 0 {
        lemma_kv_map_domain(ks.drop_last(), vs.drop_last(), k);
        if kv_map(ks, vs).contains_key(k) {
            if k == ks.last() {
                assert(ks[ks.len() - 1] == k);
            } else {
                let i = choose|i: int| 0 <= i < ks.len() - 1 && ks.drop_last()[i] == k;
                assert(ks[i] == k);
            }
        }
        if exists|i: int| 0 <= i < ks.len() && ks[i] == k {
            let i = choose|i: int| 0 <= i < ks.len() && ks[i] == k;
            if i < ks.len() - 1 {
                assert(ks.drop_last()[i] == k);
            }
        }
    }
}

/// With unique keys, the value at a key is the value beside it.
pub proof fn lemma_kv_map_get<K, T>(ks: Seq<K>, vs: Seq<T>, i: int)
    requires
        ks.len() == vs.len(),
        uniq_keys(ks),
        0 <= i < ks.len(),
    ensures
        kv_map(ks, vs).contains_key(ks[i]),
        kv_map(ks, vs)[ks[i]] == vs[i],
    decreases ks.len(),
{
    lemma_kv_map_domain(ks, vs, ks[i]);
    if i < ks.len() - 1 {
        assert(ks.drop_last()[i] == ks[i]);
        assert(uniq_keys(ks.drop_last()));
        lemma_kv_map_get(ks.drop_last(), vs.drop_last(), i);
        assert(ks[i] != ks.last());
    }
}

/// Replacing the value beside a key updates the map at that key.
pub proof fn lemma_kv_map_update<K, T>(ks: Seq<K>, vs: Seq<T>, i: int, v: T)
    requires
        ks.len() == vs.len(),
        uniq_keys(ks),
        0 <= i < ks.len(),
    ensures
        kv_map(ks, vs.update(i, v)) == kv_map(ks, vs).insert(ks[i], v),
    decreases ks.len(),
{
    if i == ks.len() - 1 {
        assert(vs.update(i, v).drop_last() =~= vs.drop_last());
        assert(vs.update(i, v).last() == v);
        assert(kv_map(ks, vs.update(i, v)) =~= kv_map(ks, vs).insert(ks[i], v));
    } else {
        assert(vs.update(i, v).drop_last() =~= vs.drop_last().update(i, v));
        assert(vs.update(i, v).last() == vs.last());
        assert(uniq_keys(ks.drop_last()));
        assert(ks.drop_last()[i] == ks[i]);
        lemma_kv_map_update(ks.drop_last(), vs.drop_last(), i, v);
        assert(ks[i] != ks.last());
        assert(kv_map(ks, vs.update(i, v)) =~= kv_map(ks, vs).insert(ks[i], v));
    }
}

/// Appending a fresh entry inserts it into the map.
pub proof fn lemma_kv_map_push<K, T>(ks: Seq<K>, vs: Seq<T>, k: K, v: T)
    requires
        ks.len() == vs.len(),
    ensures
        kv_map(ks.push(k), vs.push(v)) == kv_map(ks, vs).insert(k, v),
{
    assert(ks.push(k).drop_last() =~= ks);
    assert(vs.push(v).drop_last() =~= vs);
    assert(kv_map(ks.push(k), vs.push(v)) =~= kv_map(ks, vs).insert(k, v));
}

/// Removing an entry removes its key from the map.
pub proof fn lemma_kv_map_remove<K, T>(ks: Seq<K>, vs: Seq<T>, i: int)
    requires
        ks.len() == vs.len(),
        uniq_keys(ks),
        0 <= i < ks.len(),
    ensures
        kv_map(ks.remove(i), vs.remove(i)) == kv_map(ks, vs).remove(ks[i]),
    decreases ks.len(),
{
    if i == ks.len() - 1 {
        assert(ks.remove(i) =~= ks.drop_last());
        assert(vs.remove(i) =~= vs.drop_last());
        lemma_kv_map_domain(ks.drop_last(), vs.drop_last(), ks[i]);
        assert(!kv_map(ks.drop_last(), vs.drop_last()).contains_key(ks[i])) by {
            if exists|j: int| 0 <= j < ks.len() - 1 && ks.drop_last()[j] == ks[i] {
                let j = choose|j: int| 0 <= j < ks.len() - 1 && ks.drop_last()[j] == ks[i];
                assert(ks[j] == ks[i]);
            }
        }
        assert(kv_map(ks.remove(i), vs.remove(i)) =~= kv_map(ks, vs).remove(ks[i]));
    } else {
        assert(ks.remove(i).drop_last() =~= ks.drop_last().remove(i));
        assert(vs.remove(i).drop_last() =~= vs.drop_last().remove(i));
        assert(ks.remove(i).last() == ks.last());
        assert(vs.remove(i).last() == vs.last());
        assert(uniq_keys(ks.drop_last()));
        assert(ks.drop_last()[i] == ks[i]);
        lemma_kv_map_remove(ks.drop_last(), vs.drop_last(), i);
        assert(ks[i] != ks.last());
        assert(kv_map(ks.remove(i), vs.remove(i)) =~= kv_map(ks, vs).remove(ks[i]));
    }
}

/// A map from string keys to values, stored as two parallel columns.
pub struct SMap<V> {
    keys: Vec<String>,
    vals: Vec<V>,
}

impl<V: DeepView> SMap<V> {
    /// The columns line up and no key repeats.
    pub closed spec fn wf(&self) -> bool {
        &&& self.keys@.len() == self.vals@.len()
        &&& uniq_keys(self.keys.deep_view())
    }

    /// The map this structure denotes.
    pub closed spec fn view(&self) -> Map<Seq<char>, V::V> {
        kv_map(self.keys.deep_view(), self.vals.deep_view())
    }

    /// The empty map.
    pub fn new() -> (m: Self)
        ensures
            m.wf(),
            m@ == Map::<Seq<char>, V::V>::empty(),
    {
        let m = SMap { keys: Vec::new(), vals: Vec::new() };
        proof {
            assert(m.keys.deep_view() =~= Seq::<Seq<char>>::empty());
        }
        m
    }

    /// Where the key stands in the key column, if anywhere.
    fn index_of(&self, key: &String) -> (r: Option<usize>)
        ensures
            match r {
                Option::Some(i) => i < self.keys@.len() && self.keys.deep_view()[i as int]
                    == key@,
                Option::None => forall|i: int|
                    0 <= i < self.keys@.len() ==> self.keys.deep_view()[i] != key@,
            },
    {
        let n = self.keys.len();
        let mut i: usize = 0;
        while i < n
            invariant
                i <= n == self.keys@.len(),
                forall|j: int| 0 <= j < i ==> self.keys.deep_view()[j] != key@,
            decreases n - i,
        {
            if self.keys[i].eq(key) {
                return Some(i);
            }
            i = i + 1;
        }
        None
    }

    /// Whether the key is present.
    pub fn contains(&self, key: &String) -> (r: bool)
        requires
            self.wf(),
        ensures
            r == self@.contains_key(key@),
    {
        proof {
            lemma_kv_map_domain(self.keys.deep_view(), self.vals.deep_view(), key@);
        }
        match self.index_of(key) {
            Option::Some(_) => true,
            Option::None => false,
        }
    }

    /// The value at a key, if the key is present.
    pub fn get(&self, key: &String) -> (r: Option<&V>)
        requires
            self.wf(),
        ensures
            match r {
                Option::Some(v) => self@.contains_key(key@) && v.deep_view() == self@[key@],
                Option::None => !self@.contains_key(key@),
            },
    {
        proof {
            lemma_kv_map_domain(self.keys.deep_view(), self.vals.deep_view(), key@);
        }
        match self.index_of(key) {
            Option::Some(i) => {
                proof {
                    lemma_kv_map_get(self.keys.deep_view(), self.vals.deep_view(), i as int);
                }
                Some(&self.vals[i])
            },
            Option::None => None,
        }
    }

    /// Bind the key to the value, replacing any earlier binding.
    pub fn insert(&mut self, key: String, val: V)
        requires
            old(self).wf(),
        ensures
            final(self).wf(),
            final(self)@ == old(self)@.insert(key@, val.deep_view()),
    {
        match self.index_of(&key) {
            Option::Some(i) => {
                proof {
                    lemma_kv_map_update(
                        self.keys.deep_view(),
                        self.vals.deep_view(),
                        i as int,
                        val.deep_view(),
                    );
                }
                self.vals.set(i, val);
                proof {
                    assert(self.vals.deep_view() =~= old(self).vals.deep_view().update(
                        i as int,
                        val.deep_view(),
                    ));
                }
            },
            Option::None => {
                proof {
                    lemma_kv_map_push(
                        self.keys.deep_view(),
                        self.vals.deep_view(),
                        key@,
                        val.deep_view(),
                    );
                }
                self.keys.push(key);
                self.vals.push(val);
                proof {
                    assert(self.keys.deep_view() =~= old(self).keys.deep_view().push(key@));
                    assert(self.vals.deep_view() =~= old(self).vals.deep_view().push(
                        val.deep_view(),
                    ));
                    assert(uniq_keys(self.keys.deep_view()));
                }
            },
        }
    }

    /// Remove the key's binding and hand its value back, if it was present.
    pub fn take(&mut self, key: &String) -> (r: Option<V>)
        requires
            old(self).wf(),
        ensures
            final(self).wf(),
            r is Some <==> old(self)@.contains_key(key@),
            r is Some ==> r->0.deep_view() == old(self)@[key@],
            final(self)@ == old(self)@.remove(key@),
    {
        proof {
            lemma_kv_map_domain(self.keys.deep_view(), self.vals.deep_view(), key@);
        }
        match self.index_of(key) {
            Option::Some(i) => {
                proof {
                    lemma_kv_map_get(self.keys.deep_view(), self.vals.deep_view(), i as int);
                    lemma_kv_map_remove(self.keys.deep_view(), self.vals.deep_view(), i as int);
                }
                self.keys.remove(i);
                let v = self.vals.remove(i);
                proof {
                    assert(self.keys.deep_view() =~= old(self).keys.deep_view().remove(i as int));
                    assert(self.vals.deep_view() =~= old(self).vals.deep_view().remove(i as int));
                    assert(uniq_keys(self.keys.deep_view())) by {
                        let ks = old(self).keys.deep_view();
                        assert forall|a: int, b: int|
                            0 <= a < b < self.keys.deep_view().len() implies self.keys.deep_view()[a]
                            != self.keys.deep_view()[b] by {
                            let ra = if a < i { a } else { a + 1 };
                            let rb = if b < i { b } else { b + 1 };
                            assert(self.keys.deep_view()[a] == ks[ra]);
                            assert(self.keys.deep_view()[b] == ks[rb]);
                        }
                    }
                }
                Some(v)
            },
            Option::None => {
                proof {
                    assert(old(self)@.remove(key@) =~= old(self)@);
                }
                None
            },
        }
    }

    /// Remove the key's binding; report whether it was there.
    pub fn remove(&mut self, key: &String) -> (r: bool)
        requires
            old(self).wf(),
        ensures
            final(self).wf(),
            r == old(self)@.contains_key(key@),
            final(self)@ == old(self)@.remove(key@),
    {
        match self.take(key) {
            Option::Some(_) => true,
            Option::None => false,
        }
    }
}

} // verus!

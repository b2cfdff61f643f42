//! The watch table: the optimistic-concurrency layer's registry of live
//! watches.  A watch on a key gets an id `<key>_<n>` with a serial number
//! unique for that key; a later mutation of the key from a different
//! transaction context sweeps the key's watches away, which makes a pending
//! EXEC bound to one of them abort.
use vstd::prelude::*;
use vstd::string::StringExecFns;
use crate::smap::{SMap, seq_max, lemma_seq_max_ge};
use crate::text::{dec_digits, split_chars, split_string, u64_to_string};

verus! {

/// The id string of a watch on `key` with serial number `n`.
pub open spec fn watch_id_of(key: Seq<char>, n: nat) -> Seq<char> {
    key + seq!['_'] + dec_digits(n)
}

/// The watch serial numbers live on a key; empty when the key has none.
pub open spec fn suffixes_of(m: Map<Seq<char>, Seq<u64>>, k: Seq<char>) -> Seq<u64> {
    if m.contains_key(k) {
        m[k]
    } else {
        Seq::<u64>::empty()
    }
}

/// The serial numbers on `k` whose full id is `id`, kept in order.
pub open spec fn matching(s: Seq<u64>, k: Seq<char>, id: Seq<char>) -> Seq<u64>
    decreases s.len(),
{
    if s.len() == 0 {
        s
    } else {
        let rest = matching(s.drop_last(), k, id);
        if watch_id_of(k, s.last() as nat) == id {
            rest.push(s.last())
        } else {
            rest
        }
    }
}

/// The serial numbers on `k` whose full id is not `id`, kept in order.
pub open spec fn non_matching(s: Seq<u64>, k: Seq<char>, id: Seq<char>) -> Seq<u64>
    decreases s.len(),
{
    if s.len() == 0 {
        s
    } else {
        let rest = non_matching(s.drop_last(), k, id);
        if watch_id_of(k, s.last() as nat) != id {
            rest.push(s.last())
        } else {
            rest
        }
    }
}

/// What a mutation of `k` from context `c` leaves of the watch table: if the
/// context is itself one of the key's watch ids, only that watch survives;
/// any other mutation clears the key's watch set.  A key never watched is
/// untouched.
pub open spec fn invalidate_spec(
    m: Map<Seq<char>, Seq<u64>>,
    k: Seq<char>,
    c: Option<Seq<char>>,
) -> Map<Seq<char>, Seq<u64>> {
    if !m.contains_key(k) {
        m
    } else {
        m.insert(
            k,
            match c {
                Option::Some(id) => matching(m[k], k, id),
                Option::None => Seq::<u64>::empty(),
            },
        )
    }
}

/// Print the watch id for `key` with serial number `n`.
pub fn make_watch_id(key: &String, n: u64) -> (s: String)
    ensures
        s@ == watch_id_of(key@, n as nat),
{
    proof {
        reveal_strlit("_");
    }
    let mut s = key.clone();
    s.append("_");
    let d = u64_to_string(n);
    s.append(d.as_str());
    proof {
        assert(s@ =~= watch_id_of(key@, n as nat));
    }
    s
}

/// The registry of live watches, key by key.
pub struct WatchTable {
    keys: SMap<Vec<u64>>,
}

impl WatchTable {
    /// The underlying association is well formed.
    pub closed spec fn wf(&self) -> bool {
        self.keys.wf()
    }

    /// Key → serial numbers of its live watches.
    pub closed spec fn view(&self) -> Map<Seq<char>, Seq<u64>> {
        self.keys@
    }

    /// An empty registry.
    pub fn new() -> (t: Self)
        ensures
            t.wf(),
            t@ == Map::<Seq<char>, Seq<u64>>::empty(),
    {
        WatchTable { keys: SMap::new() }
    }

    /// Register a new watch on a key and hand back its id: serial number 0
    /// for a key with no live watch, the largest live serial plus one
    /// otherwise.  The id is fresh: no live watch on the key has it.  `None`
    /// only in the unreachable case that the serial numbers are exhausted.
    pub fn watch(&mut self, key: &String) -> (r: Option<String>)
        requires
            old(self).wf(),
        ensures
            final(self).wf(),
            ({
                let s_old = suffixes_of(old(self)@, key@);
                let next: u64 = if s_old.len() == 0 {
                    0u64
                } else {
                    (seq_max(s_old) + 1) as u64
                };
                match r {
                    Option::Some(id) => {
                        &&& s_old.len() == 0 || seq_max(s_old) < u64::MAX
                        &&& id@ == watch_id_of(key@, next as nat)
                        &&& forall|j: int| 0 <= j < s_old.len() ==> s_old[j] != next
                        &&& final(self)@ == old(self)@.insert(key@, s_old.push(next))
                    },
                    Option::None => {
                        &&& s_old.len() > 0 && seq_max(s_old) == u64::MAX
                        &&& final(self)@ == old(self)@
                    },
                }
            }),
    {
        let ghost s_old = suffixes_of(old(self)@, key@);
        let mut cur: Vec<u64> = match self.keys.take(key) {
            Option::Some(v) => v,
            Option::None => Vec::new(),
        };
        proof {
            assert(cur@ == s_old);
        }
        let next: u64;
        if cur.len() == 0 {
            next = 0;
        } else {
            let mut m: u64 = 0;
            let mut i: usize = 0;
            while i < cur.len()
                invariant
                    i <= cur@.len(),
                    m == seq_max(cur@.take(i as int)),
                decreases cur@.len() - i,
            {
                proof {
                    assert(cur@.take(i + 1).drop_last() =~= cur@.take(i as int));
                    assert(cur@.take(i + 1).last() == cur@[i as int]);
                }
                if cur[i] > m {
                    m = cur[i];
                }
                i = i + 1;
            }
            proof {
                assert(cur@.take(cur@.len() as int) =~= cur@);
            }
            if m == u64::MAX {
                proof {
                    assert(cur.deep_view() =~= s_old);
                }
                self.keys.insert(key.clone(), cur);
                proof {
                    assert(old(self)@.remove(key@).insert(key@, s_old) =~= old(self)@.insert(
                        key@,
                        s_old,
                    ));
                    assert(old(self)@.insert(key@, s_old) =~= old(self)@);
                }
                return None;
            }
            next = m + 1;
            proof {
                assert forall|j: int| 0 <= j < s_old.len() implies s_old[j] != next by {
                    lemma_seq_max_ge(s_old, j);
                }
            }
        }
        cur.push(next);
        proof {
            assert(cur.deep_view() =~= s_old.push(next));
        }
        self.keys.insert(key.clone(), cur);
        proof {
            assert(old(self)@.remove(key@).insert(key@, s_old.push(next)) =~= old(self)@.insert(
                key@,
                s_old.push(next),
            ));
        }
        Some(make_watch_id(key, next))
    }

    /// A mutation of `key` from context `ctx` ran: keep only the watch whose
    /// id is the context itself, or sweep the key's watches away if the
    /// context is no watch of this key.
    #[verifier::loop_isolation(false)]
    pub fn invalidate(&mut self, key: &String, ctx: &Option<String>)
        requires
            old(self).wf(),
        ensures
            final(self).wf(),
            final(self)@ == invalidate_spec(
                old(self)@,
                key@,
                match ctx {
                    Option::Some(c) => Option::Some(c@),
                    Option::None => Option::None,
                },
            ),
    {
        match self.keys.take(key) {
            Option::None => {},
            Option::Some(cur) => {
                let mut kept: Vec<u64> = Vec::new();
                match ctx {
                    Option::Some(c) => {
                        let n = cur.len();
                        let mut i: usize = 0;
                        while i < n
                            invariant
                                i <= n == cur@.len(),
                                kept@ == matching(cur@.take(i as int), key@, c@),
                            decreases n - i,
                        {
                            proof {
                                assert(cur@.take(i + 1).drop_last() =~= cur@.take(i as int));
                                assert(cur@.take(i + 1).last() == cur@[i as int]);
                            }
                            let id = make_watch_id(key, cur[i]);
                            if id.eq(c) {
                                kept.push(cur[i]);
                            }
                            i = i + 1;
                        }
                        proof {
                            assert(cur@.take(n as int) =~= cur@);
                        }
                    },
                    Option::None => {},
                }
                proof {
                    assert(cur@ =~= cur.deep_view());
                    assert(kept@ =~= kept.deep_view());
                }
                self.keys.insert(key.clone(), kept);
                proof {
                    assert(old(self)@.remove(key@).insert(key@, kept.deep_view()) =~= old(
                        self,
                    )@.insert(key@, kept.deep_view()));
                }
            },
        }
    }

    /// An EXEC bound to `watch_id` checks in: the watch is consumed, and the
    /// transaction may run only if it was still live.  The watch's key is
    /// read out of the id as the text before the first underscore.
    #[verifier::loop_isolation(false)]
    #[verifier::rlimit(30)]
    pub fn consume(&mut self, watch_id: &String) -> (ok: bool)
        requires
            old(self).wf(),
        ensures
            final(self).wf(),
            ({
                let k = split_chars(watch_id@, '_')[0];
                let s_old = suffixes_of(old(self)@, k);
                &&& ok == exists|j: int|
                    0 <= j < s_old.len() && watch_id_of(k, #[trigger] s_old[j] as nat)
                        == watch_id@
                &&& old(self)@.contains_key(k) ==> final(self)@ == old(self)@.insert(
                    k,
                    non_matching(s_old, k, watch_id@),
                )
                &&& !old(self)@.contains_key(k) ==> final(self)@ == old(self)@
            }),
    {
        let parts = split_string(watch_id.as_str(), '_');
        let key_part = &parts[0];
        proof {
            assert(key_part@ == split_chars(watch_id@, '_')[0]);
        }
        match self.keys.take(key_part) {
            Option::None => {
                proof {
                    assert(old(self)@.remove(key_part@) =~= old(self)@);
                }
                false
            },
            Option::Some(cur) => {
                let ghost k = key_part@;
                let mut kept: Vec<u64> = Vec::new();
                let mut found = false;
                let n = cur.len();
                let mut i: usize = 0;
                while i < n
                    invariant
                        i <= n == cur@.len(),
                        kept@ == non_matching(cur@.take(i as int), k, watch_id@),
                        found == exists|j: int|
                            0 <= j < i && watch_id_of(k, #[trigger] cur@[j] as nat) == watch_id@,
                    decreases n - i,
                {
                    proof {
                        assert(cur@.take(i + 1).drop_last() =~= cur@.take(i as int));
                        assert(cur@.take(i + 1).last() == cur@[i as int]);
                    }
                    let id = make_watch_id(key_part, cur[i]);
                    if id.eq(watch_id) {
                        found = true;
                        proof {
                            assert(watch_id_of(k, cur@[i as int] as nat) == watch_id@);
                        }
                    } else {
                        kept.push(cur[i]);
                    }
                    i = i + 1;
                }
                proof {
                    assert(cur@.take(n as int) =~= cur@);
                    assert(cur@ =~= cur.deep_view());
                    assert(kept@ =~= kept.deep_view());
                }
                self.keys.insert(key_part.clone(), kept);
                proof {
                    assert(old(self)@.remove(key_part@).insert(key_part@, kept.deep_view()) =~= old(
                        self,
                    )@.insert(key_part@, kept.deep_view()));
                    let s_old = suffixes_of(old(self)@, k);
                    assert(s_old == cur@);
                    assert(kept@ == non_matching(s_old, k, watch_id@));
                    if found {
                        let j = choose|j: int|
                            0 <= j < cur@.len() && watch_id_of(k, #[trigger] cur@[j] as nat)
                                == watch_id@;
                        assert(watch_id_of(k, s_old[j] as nat) == watch_id@);
                    }
                    if exists|j: int|
                        0 <= j < s_old.len() && watch_id_of(k, #[trigger] s_old[j] as nat)
                            == watch_id@ {
                        let j = choose|j: int|
                            0 <= j < s_old.len() && watch_id_of(k, #[trigger] s_old[j] as nat)
                                == watch_id@;
                        assert(watch_id_of(k, cur@[j] as nat) == watch_id@);
                        assert(found);
                    }
                }
                found
            },
        }
    }
}

} // verus!

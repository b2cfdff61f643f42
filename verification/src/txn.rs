//! The transaction table: pending MULTI/EXEC transactions.  A transaction is
//! a queue of requests bound, perhaps, to a watch id; its numeric id is the
//! largest pending id plus one, or zero when nothing is pending, so pending
//! ids never collide.  EXEC removes the entry whatever the outcome.
use vstd::prelude::*;
use crate::protocol::{Request, ReqView};
use crate::smap::{
    kv_map,
    uniq_keys,
    seq_max,
    lemma_seq_max_ge,
    lemma_seq_max_in,
    lemma_uniq_remove,
    lemma_kv_map_domain,
    lemma_kv_map_get,
    lemma_kv_map_push,
    lemma_kv_map_remove,
};

verus! {

/// One pending transaction: the watch id it is bound to, if any, and its
/// queued requests in arrival order.
pub struct TxnQueue {
    watch_id: Option<String>,
    queue: Vec<Request>,
}

/// The mathematical shape of one pending transaction.
#[verifier::ext_equal]
pub struct TxnView {
    pub watch_id: Option<Seq<char>>,
    pub queue: Seq<ReqView>,
}

impl View for TxnQueue {
    type V = TxnView;

    closed spec fn view(&self) -> TxnView {
        TxnView { watch_id: self.watch_id.deep_view(), queue: self.queue.deep_view() }
    }
}

impl DeepView for TxnQueue {
    type V = TxnView;

    open spec fn deep_view(&self) -> TxnView {
        self.view()
    }
}

impl TxnQueue {
    /// A fresh transaction bound to the given watch id, with nothing queued.
    pub fn new(watch_id: Option<String>) -> (t: Self)
        ensures
            t@.watch_id == watch_id.deep_view(),
            t@.queue == Seq::<ReqView>::empty(),
    {
        let t = TxnQueue { watch_id, queue: Vec::new() };
        proof {
            assert(t.queue.deep_view() =~= Seq::<ReqView>::empty());
        }
        t
    }

    /// Queue one request at the back.
    pub fn push(&mut self, req: Request)
        ensures
            final(self)@.watch_id == old(self)@.watch_id,
            final(self)@.queue == old(self)@.queue.push(req@),
    {
        self.queue.push(req);
        proof {
            assert(self.queue.deep_view() =~= old(self).queue.deep_view().push(req@));
        }
    }

    /// Take the oldest queued request, if any.
    pub fn pop(&mut self) -> (r: Option<Request>)
        ensures
            final(self)@.watch_id == old(self)@.watch_id,
            old(self)@.queue.len() == 0 ==> r is None && final(self)@.queue == old(self)@.queue,
            old(self)@.queue.len() > 0 ==> r.deep_view() == Option::Some(old(self)@.queue[0])
                && final(self)@.queue == old(self)@.queue.drop_first(),
    {
        if self.queue.len() == 0 {
            None
        } else {
            let r = self.queue.remove(0);
            proof {
                assert(self.queue.deep_view() =~= old(self).queue.deep_view().drop_first());
            }
            Some(r)
        }
    }

    /// The watch id this transaction is bound to, if any.
    pub fn get_watch_id(&self) -> (r: Option<String>)
        ensures
            r.deep_view() == self@.watch_id,
    {
        match &self.watch_id {
            Option::Some(s) => Option::Some(s.clone()),
            Option::None => Option::None,
        }
    }
}

/// Whether `id` is the id the next MULTI allocates: above every pending id,
/// and exactly one past the largest (or zero when nothing is pending).
pub open spec fn is_next_id(m: Map<u64, TxnView>, id: u64) -> bool {
    &&& !m.contains_key(id)
    &&& forall|j: u64| m.contains_key(j) ==> j < id
    &&& id != 0 ==> m.contains_key((id - 1) as u64)
}

/// The id the next MULTI allocates.
pub open spec fn next_txn_id(m: Map<u64, TxnView>) -> u64 {
    choose|id: u64| is_next_id(m, id)
}

/// At most one id fits the allocation rule.
pub proof fn lemma_next_id_unique(m: Map<u64, TxnView>, a: u64, b: u64)
    requires
        is_next_id(m, a),
        is_next_id(m, b),
    ensures
        a == b,
{
    if a < b {
        assert(m.contains_key((b - 1) as u64));
    } else if b < a {
        assert(m.contains_key((a - 1) as u64));
    }
}

/// The pending transactions, keyed by numeric transaction id.
pub struct TxnTable {
    ids: Vec<u64>,
    txns: Vec<TxnQueue>,
}

impl TxnTable {
    /// The columns line up and pending ids are distinct.
    pub closed spec fn wf(&self) -> bool {
        &&& self.ids@.len() == self.txns@.len()
        &&& uniq_keys(self.ids@)
    }

    /// Transaction id → pending transaction.
    pub closed spec fn view(&self) -> Map<u64, TxnView> {
        kv_map(self.ids@, self.txns.deep_view())
    }

    /// An empty table.
    pub fn new() -> (t: Self)
        ensures
            t.wf(),
            t@ == Map::<u64, TxnView>::empty(),
    {
        let t = TxnTable { ids: Vec::new(), txns: Vec::new() };
        proof {
            assert(t.ids@ =~= Seq::<u64>::empty());
        }
        t
    }

    /// Where an id stands in the id column, if anywhere.
    fn index_of(&self, id: u64) -> (r: Option<usize>)
        ensures
            match r {
                Option::Some(i) => i < self.ids@.len() && self.ids@[i as int] == id,
                Option::None => forall|i: int| 0 <= i < self.ids@.len() ==> self.ids@[i] != id,
            },
    {
        let n = self.ids.len();
        let mut i: usize = 0;
        while i < n
            invariant
                i <= n == self.ids@.len(),
                forall|j: int| 0 <= j < i ==> self.ids@[j] != id,
            decreases n - i,
        {
            if self.ids[i] == id {
                return Some(i);
            }
            i = i + 1;
        }
        None
    }

    /// Open a transaction: its id is the largest pending id plus one, or
    /// zero when nothing is pending, so it collides with no pending id.
    /// `None` only in the unreachable case that the pending ids are
    /// exhausted; nothing changes then.
    pub fn multi(&mut self, watch_id: Option<String>) -> (r: Option<u64>)
        requires
            old(self).wf(),
        ensures
            final(self).wf(),
            r is None <==> old(self)@.contains_key(u64::MAX),
            r is None ==> final(self)@ == old(self)@,
            match r {
                Option::Some(id) => {
                    &&& !old(self)@.contains_key(id)
                    &&& forall|j: u64| old(self)@.contains_key(j) ==> j < id
                    &&& id != 0 ==> old(self)@.contains_key((id - 1) as u64)
                    &&& final(self)@ == old(self)@.insert(
                        id,
                        TxnView {
                            watch_id: watch_id.deep_view(),
                            queue: Seq::<ReqView>::empty(),
                        },
                    )
                },
                Option::None => true,
            },
    {
        proof {
            lemma_kv_map_domain(self.ids@, self.txns.deep_view(), u64::MAX);
        }
        let id: u64;
        if self.ids.len() == 0 {
            id = 0;
        } else {
            let mut m: u64 = 0;
            let mut i: usize = 0;
            while i < self.ids.len()
                invariant
                    i <= self.ids@.len(),
                    m == seq_max(self.ids@.take(i as int)),
                decreases self.ids@.len() - i,
            {
                proof {
                    assert(self.ids@.take(i + 1).drop_last() =~= self.ids@.take(i as int));
                    assert(self.ids@.take(i + 1).last() == self.ids@[i as int]);
                }
                if self.ids[i] > m {
                    m = self.ids[i];
                }
                i = i + 1;
            }
            proof {
                assert(self.ids@.take(self.ids@.len() as int) =~= self.ids@);
            }
            if m == u64::MAX {
                proof {
                    lemma_seq_max_in(self.ids@);
                }
                return None;
            }
            proof {
                if self.ids@.contains(u64::MAX) {
                    let j = choose|j: int| 0 <= j < self.ids@.len() && self.ids@[j] == u64::MAX;
                    lemma_seq_max_ge(self.ids@, j);
                }
            }
            id = m + 1;
        }
        proof {
            assert forall|j: u64| old(self)@.contains_key(j) implies j < id by {
                lemma_kv_map_domain(self.ids@, self.txns.deep_view(), j);
                let i = choose|i: int| 0 <= i < self.ids@.len() && self.ids@[i] == j;
                lemma_seq_max_ge(self.ids@, i);
            }
            lemma_kv_map_domain(self.ids@, self.txns.deep_view(), id);
            if id != 0 {
                lemma_seq_max_in(self.ids@);
                lemma_kv_map_domain(self.ids@, self.txns.deep_view(), (id - 1) as u64);
            }
        }
        let t = TxnQueue::new(watch_id);
        proof {
            lemma_kv_map_push(self.ids@, self.txns.deep_view(), id, t.deep_view());
        }
        self.ids.push(id);
        self.txns.push(t);
        proof {
            assert(self.ids@ =~= old(self).ids@.push(id));
            assert(self.txns.deep_view() =~= old(self).txns.deep_view().push(
                TxnView { watch_id: watch_id.deep_view(), queue: Seq::<ReqView>::empty() },
            ));
            assert(uniq_keys(self.ids@)) by {
                assert forall|a: int, b: int| 0 <= a < b < self.ids@.len() implies self.ids@[a]
                    != self.ids@[b] by {
                    if b == self.ids@.len() - 1 {
                        lemma_seq_max_ge(old(self).ids@, a);
                    }
                }
            }
        }
        Some(id)
    }

    /// Append a request to a pending transaction's queue; report whether the
    /// id named one.
    pub fn enqueue(&mut self, id: u64, req: Request) -> (ok: bool)
        requires
            old(self).wf(),
        ensures
            final(self).wf(),
            ok == old(self)@.contains_key(id),
            ok ==> final(self)@ == old(self)@.insert(
                id,
                TxnView {
                    watch_id: old(self)@[id].watch_id,
                    queue: old(self)@[id].queue.push(req@),
                },
            ),
            !ok ==> final(self)@ == old(self)@,
    {
        proof {
            lemma_kv_map_domain(self.ids@, self.txns.deep_view(), id);
        }
        match self.index_of(id) {
            Option::Some(i) => {
                proof {
                    lemma_kv_map_get(self.ids@, self.txns.deep_view(), i as int);
                    lemma_kv_map_remove(self.ids@, self.txns.deep_view(), i as int);
                    lemma_uniq_remove(self.ids@, i as int);
                }
                let ghost mid = kv_map(self.ids@, self.txns.deep_view()).remove(id);
                self.ids.remove(i);
                let mut t = self.txns.remove(i);
                proof {
                    assert(self.ids@ =~= old(self).ids@.remove(i as int));
                    assert(self.txns.deep_view() =~= old(self).txns.deep_view().remove(i as int));
                    assert(kv_map(self.ids@, self.txns.deep_view()) == mid);
                }
                t.push(req);
                proof {
                    lemma_kv_map_push(self.ids@, self.txns.deep_view(), id, t.deep_view());
                }
                self.ids.push(id);
                self.txns.push(t);
                proof {
                    assert(self.ids@ =~= old(self).ids@.remove(i as int).push(id));
                    assert(self.txns.deep_view() =~= old(self).txns.deep_view().remove(
                        i as int,
                    ).push(
                        TxnView {
                            watch_id: old(self)@[id].watch_id,
                            queue: old(self)@[id].queue.push(req@),
                        },
                    ));
                    assert(uniq_keys(self.ids@)) by {
                        assert forall|a: int, b: int| 0 <= a < b < self.ids@.len() implies self.ids@[a]
                            != self.ids@[b] by {
                            if b < self.ids@.len() - 1 {
                                assert(self.ids@[a] == old(self).ids@.remove(i as int)[a]);
                                assert(self.ids@[b] == old(self).ids@.remove(i as int)[b]);
                            } else {
                                assert(self.ids@[b] == id);
                                assert(self.ids@[a] == old(self).ids@.remove(i as int)[a]);
                                lemma_kv_map_domain(
                                    old(self).ids@.remove(i as int),
                                    old(self).txns.deep_view().remove(i as int),
                                    id,
                                );
                                assert(!mid.contains_key(id));
                            }
                        }
                    }
                    assert(final(self)@ =~= old(self)@.insert(
                        id,
                        TxnView {
                            watch_id: old(self)@[id].watch_id,
                            queue: old(self)@[id].queue.push(req@),
                        },
                    ));
                }
                true
            },
            Option::None => false,
        }
    }

    /// Remove a pending transaction and hand it back, if the id names one.
    pub fn take(&mut self, id: u64) -> (r: Option<TxnQueue>)
        requires
            old(self).wf(),
        ensures
            final(self).wf(),
            r is Some <==> old(self)@.contains_key(id),
            r is Some ==> r->0.deep_view() == old(self)@[id],
            final(self)@ == old(self)@.remove(id),
    {
        proof {
            lemma_kv_map_domain(self.ids@, self.txns.deep_view(), id);
        }
        match self.index_of(id) {
            Option::Some(i) => {
                proof {
                    lemma_kv_map_get(self.ids@, self.txns.deep_view(), i as int);
                    lemma_kv_map_remove(self.ids@, self.txns.deep_view(), i as int);
                    lemma_uniq_remove(self.ids@, i as int);
                }
                self.ids.remove(i);
                let t = self.txns.remove(i);
                proof {
                    assert(self.ids@ =~= old(self).ids@.remove(i as int));
                    assert(self.txns.deep_view() =~= old(self).txns.deep_view().remove(i as int));
                }
                Some(t)
            },
            Option::None => {
                proof {
                    assert(old(self)@.remove(id) =~= old(self)@);
                }
                None
            },
        }
    }
}

} // verus!

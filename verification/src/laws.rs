//! The engine's laws: what holds of whole request sequences, proved over
//! the step model that `handle` is verified to implement.
use vstd::prelude::*;
use crate::protocol::{ReqView, OPCode, opcode_of, OP_GET, OP_SET, OP_DEL, OP_MULTI, OP_EXEC,
    OP_WATCH};
use crate::aof::apply_all;
use crate::engine::{
    EngineView,
    basic_spec,
    parses_u64,
    run_queue,
    nil_text,
    one_text,
    zero_text,
    should_queue,
    step_spec,
    watch_changed_text,
};
use crate::text::{
    dec_digits,
    dec_val,
    free_of,
    lemma_dec_digits_val,
    lemma_split_prefix,
    split_chars,
};
use crate::watch::{non_matching, suffixes_of, watch_id_of};
use crate::txn::{is_next_id, next_txn_id};
use crate::smap::seq_max;
use crate::pubsub::{publish_count, publish_spec, subscribe_spec, waiting_on};

verus! {

/// A WATCH request for a key.
pub open spec fn watch_req(k: Seq<char>) -> ReqView {
    ReqView { opcode: OP_WATCH as int, key: k, value: Seq::<char>::empty(), txn_id: Option::None }
}

/// A MULTI request bound to a watch id.
pub open spec fn multi_req(wid: Seq<char>) -> ReqView {
    ReqView {
        opcode: OP_MULTI as int,
        key: Seq::<char>::empty(),
        value: Seq::<char>::empty(),
        txn_id: Option::Some(wid),
    }
}

/// A SET request, in transaction context `ctx`.
pub open spec fn set_req(k: Seq<char>, v: Seq<char>, ctx: Option<Seq<char>>) -> ReqView {
    ReqView { opcode: OP_SET as int, key: k, value: v, txn_id: ctx }
}

/// A GET request.
pub open spec fn get_req(k: Seq<char>) -> ReqView {
    ReqView { opcode: OP_GET as int, key: k, value: Seq::<char>::empty(), txn_id: Option::None }
}

/// A DEL request without transaction context.
pub open spec fn del_req(k: Seq<char>) -> ReqView {
    ReqView { opcode: OP_DEL as int, key: k, value: Seq::<char>::empty(), txn_id: Option::None }
}

/// An EXEC request for a transaction id.
pub open spec fn exec_req(tid: Seq<char>) -> ReqView {
    ReqView {
        opcode: OP_EXEC as int,
        key: Seq::<char>::empty(),
        value: Seq::<char>::empty(),
        txn_id: Option::Some(tid),
    }
}

/// For every key and value: a SET binds the key to the value, and a GET
/// right after answers exactly that value with success.
pub proof fn lemma_set_then_get(v: EngineView, k: Seq<char>, val: Seq<char>)
    requires
        v.master,
    ensures
        ({
            let v1 = step_spec(v, set_req(k, val, Option::None)).state;
            let out = step_spec(v1, get_req(k));
            &&& step_spec(v, set_req(k, val, Option::None)).resp.success
            &&& v1.kv.contains_key(k) && v1.kv[k] == val
            &&& out.resp.success && out.resp.value == val
            &&& out.state == v1
        }),
{
}

/// The binding a SET made stands until the next SET or DEL of that key: a
/// step whose request is not a mutation of the key (and no EXEC, whose
/// queue could hide one) leaves the key's binding exactly as it was.
pub proof fn lemma_binding_stable(v: EngineView, req: ReqView, k: Seq<char>)
    requires
        !(req.key == k && (opcode_of(req.opcode) == OPCode::SET || opcode_of(req.opcode)
            == OPCode::SETMASTER || opcode_of(req.opcode) == OPCode::DEL || opcode_of(req.opcode)
            == OPCode::DELMASTER)),
        opcode_of(req.opcode) != OPCode::EXEC,
    ensures
        step_spec(v, req).state.kv.contains_key(k) == v.kv.contains_key(k),
        v.kv.contains_key(k) ==> step_spec(v, req).state.kv[k] == v.kv[k],
{
}

/// A GET of an absent key is idempotent: it answers the nil marker with
/// success false, changes nothing, and a repeat answers the same.
pub proof fn lemma_get_absent_idempotent(v: EngineView, k: Seq<char>)
    requires
        !v.kv.contains_key(k),
    ensures
        ({
            let out = step_spec(v, get_req(k));
            &&& out.state == v
            &&& !out.resp.success
            &&& out.resp.value == nil_text()
            &&& step_spec(out.state, get_req(k)) == out
        }),
{
}

/// A DEL of a bound key reports `1`; an immediate second DEL of the same
/// key reports `0`; both are successes.
pub proof fn lemma_del_twice(v: EngineView, k: Seq<char>)
    requires
        v.master,
        v.kv.contains_key(k),
    ensures
        ({
            let first = step_spec(v, del_req(k));
            let second = step_spec(first.state, del_req(k));
            &&& first.resp.success && first.resp.value == one_text()
            &&& second.resp.success && second.resp.value == zero_text()
            &&& !first.state.kv.contains_key(k)
            &&& second.state.kv == first.state.kv
        }),
{
}

/// Atomicity without interference: WATCH the key, open a MULTI bound to the
/// watch id, queue a SET, EXEC — the transaction commits, and the key holds
/// the queued value.  The key may not contain an underscore: the watch id
/// carries the key before its first one.
pub proof fn lemma_txn_commits_without_interference(v: EngineView, k: Seq<char>, val: Seq<char>)
    requires
        v.master,
        free_of(k, '_'),
        !(suffixes_of(v.watches, k).len() > 0 && seq_max(suffixes_of(v.watches, k))
            == u64::MAX),
        exists|x: u64| is_next_id(v.txns, x),
    ensures
        ({
            let w = step_spec(v, watch_req(k));
            let wid = w.resp.key;
            let m = step_spec(w.state, multi_req(wid));
            let tid = m.resp.key;
            let q = step_spec(m.state, set_req(k, val, Option::Some(tid)));
            let e = step_spec(q.state, exec_req(tid));
            &&& w.resp.success && m.resp.success && q.resp.success
            &&& e.resp.success
            &&& e.state.kv.contains_key(k) && e.state.kv[k] == val
        }),
{
    let w = step_spec(v, watch_req(k));
    let s_old = suffixes_of(v.watches, k);
    let next: u64 = if s_old.len() == 0 {
        0u64
    } else {
        (seq_max(s_old) + 1) as u64
    };
    let wid = w.resp.key;
    assert(wid == watch_id_of(k, next as nat));
    lemma_dec_digits_val(next as nat);
    assert(free_of(dec_digits(next as nat), '_')) by {
        assert forall|i: int| 0 <= i < dec_digits(next as nat).len() implies (
        #[trigger] dec_digits(next as nat)[i]) != '_' by {
            assert(crate::text::is_digit(dec_digits(next as nat)[i]));
        }
    }
    let m = step_spec(w.state, multi_req(wid));
    assert(w.state.txns == v.txns);
    let id = next_txn_id(w.state.txns);
    assert(is_next_id(w.state.txns, id));
    assert(!v.txns.contains_key(u64::MAX)) by {
        let x = choose|x: u64| is_next_id(v.txns, x);
        if v.txns.contains_key(u64::MAX) {
            assert(u64::MAX < x);
        }
    }
    let tid = m.resp.key;
    assert(tid == dec_digits(id as nat));
    lemma_dec_digits_val(id as nat);
    let q = step_spec(m.state, set_req(k, val, Option::Some(tid)));
    assert(should_queue(set_req(k, val, Option::Some(tid))));
    assert(dec_val(tid) as u64 == id);
    assert(m.state.txns.contains_key(id));
    let e = step_spec(q.state, exec_req(tid));
    assert(!should_queue(exec_req(tid)));
    assert(q.state.txns.contains_key(id));
    assert(q.state.txns[id].watch_id == Option::Some(wid));
    lemma_split_prefix(k, dec_digits(next as nat), '_');
    assert(split_chars(wid, '_')[0] == k) by {
        assert(wid =~= k + seq!['_'] + dec_digits(next as nat));
        assert((seq![k] + split_chars(dec_digits(next as nat), '_'))[0] == k);
    }
    let v1 = EngineView { txns: q.state.txns.remove(id), ..q.state };
    assert(v1.watches.contains_key(k));
    let s_now = suffixes_of(v1.watches, k);
    assert(s_now == s_old.push(next));
    assert(watch_id_of(k, s_now[s_now.len() - 1] as nat) == wid);
    assert(exists|j: int|
        0 <= j < s_now.len() && watch_id_of(k, #[trigger] s_now[j] as nat) == wid) by {
        assert(watch_id_of(k, s_now[s_now.len() - 1] as nat) == wid);
    }
    let qd = crate::engine::queued_as(set_req(k, val, Option::Some(tid)));
    assert(q.state.txns[id].queue =~= seq![qd]);
    let v2 = EngineView { watches: v1.watches.insert(k, non_matching(s_now, k, wid)), ..v1 };
    let run = crate::engine::run_queue(v2, q.state.txns[id].queue);
    assert(seq![qd].drop_first() =~= Seq::<ReqView>::empty());
    let fst = basic_spec(v2, qd);
    assert(opcode_of(qd.opcode) == OPCode::SET);
    assert(fst.ok);
    assert(fst.state.kv == v2.kv.insert(k, val));
    let remaining = q.state.txns[id].queue.drop_first();
    assert(remaining =~= Seq::<ReqView>::empty());
    let rest = crate::engine::run_queue(fst.state, remaining);
    assert(rest.state == fst.state);
    assert(rest.ok);
    assert(run.state == rest.state);
    assert(run.ok == rest.ok);
    assert(e.state == run.state);
    assert(e.resp.success);
    assert(e.state.kv[k] == val);
}

/// Abort under interference: after WATCH and MULTI, a SET of the key from
/// another context sweeps the watch away; the queued SET is never executed,
/// EXEC reports the abort, and the key holds the interfering value, never
/// the queued one.
pub proof fn lemma_txn_aborts_under_interference(
    v: EngineView,
    k: Seq<char>,
    v2: Seq<char>,
    v3: Seq<char>,
)
    requires
        v.master,
        free_of(k, '_'),
        !(suffixes_of(v.watches, k).len() > 0 && seq_max(suffixes_of(v.watches, k))
            == u64::MAX),
        exists|x: u64| is_next_id(v.txns, x),
    ensures
        ({
            let w = step_spec(v, watch_req(k));
            let wid = w.resp.key;
            let m = step_spec(w.state, multi_req(wid));
            let tid = m.resp.key;
            let i = step_spec(m.state, set_req(k, v2, Option::None));
            let q = step_spec(i.state, set_req(k, v3, Option::Some(tid)));
            let e = step_spec(q.state, exec_req(tid));
            &&& i.resp.success && q.resp.success
            &&& !e.resp.success
            &&& e.resp.value == watch_changed_text()
            &&& e.state.kv.contains_key(k) && e.state.kv[k] == v2
        }),
{
    let w = step_spec(v, watch_req(k));
    let s_old = suffixes_of(v.watches, k);
    let next: u64 = if s_old.len() == 0 {
        0u64
    } else {
        (seq_max(s_old) + 1) as u64
    };
    let wid = w.resp.key;
    assert(wid == watch_id_of(k, next as nat));
    lemma_dec_digits_val(next as nat);
    let m = step_spec(w.state, multi_req(wid));
    assert(w.state.txns == v.txns);
    let id = next_txn_id(w.state.txns);
    assert(is_next_id(w.state.txns, id));
    assert(!v.txns.contains_key(u64::MAX)) by {
        let x = choose|x: u64| is_next_id(v.txns, x);
        if v.txns.contains_key(u64::MAX) {
            assert(u64::MAX < x);
        }
    }
    let tid = m.resp.key;
    assert(tid == dec_digits(id as nat));
    lemma_dec_digits_val(id as nat);
    let i = step_spec(m.state, set_req(k, v2, Option::None));
    assert(i.state.watches == m.state.watches.insert(k, Seq::<u64>::empty()));
    let q = step_spec(i.state, set_req(k, v3, Option::Some(tid)));
    assert(should_queue(set_req(k, v3, Option::Some(tid))));
    assert(dec_val(tid) as u64 == id);
    assert(i.state.txns.contains_key(id));
    let e = step_spec(q.state, exec_req(tid));
    assert(!should_queue(exec_req(tid)));
    assert(q.state.txns.contains_key(id));
    assert(q.state.txns[id].watch_id == Option::Some(wid));
    lemma_split_prefix(k, dec_digits(next as nat), '_');
    assert(free_of(dec_digits(next as nat), '_')) by {
        assert forall|i2: int| 0 <= i2 < dec_digits(next as nat).len() implies (
        #[trigger] dec_digits(next as nat)[i2]) != '_' by {
            assert(crate::text::is_digit(dec_digits(next as nat)[i2]));
        }
    }
    assert(split_chars(wid, '_')[0] == k) by {
        assert(wid =~= k + seq!['_'] + dec_digits(next as nat));
        assert((seq![k] + split_chars(dec_digits(next as nat), '_'))[0] == k);
    }
    let v1 = EngineView { txns: q.state.txns.remove(id), ..q.state };
    let s_now = suffixes_of(v1.watches, k);
    assert(s_now =~= Seq::<u64>::empty());
    assert(!(exists|j: int|
        0 <= j < s_now.len() && watch_id_of(k, #[trigger] s_now[j] as nat) == wid));
    assert(!e.resp.success);
    assert(e.state.kv == i.state.kv);
    assert(i.state.kv[k] == v2);
}

/// Pub/sub at the engine level: a PUBLISH on a channel nobody has
/// subscribed to fails and changes nothing; after one SUBSCRIBE, a PUBLISH
/// reaches exactly one subscriber, and afterwards nobody waits.
pub proof fn lemma_pubsub_engine(v: EngineView, ch: Seq<char>)
    requires
        v.master,
        !v.channels.contains_key(ch),
    ensures
        publish_count(v.channels, ch) is None,
        ({
            let v1 = EngineView { channels: subscribe_spec(v.channels, ch), ..v };
            &&& publish_count(v1.channels, ch) == Option::Some(1u64)
            &&& waiting_on(publish_spec(v1.channels, ch), ch) == 0
        }),
{
}

} // verus!


verus! {

/// The durability ordering invariant, step by step: whenever the map is
/// exactly what replaying the mutation history from empty builds, one basic
/// request keeps it so — each committed mutation joins the history exactly
/// as it is applied.
pub proof fn lemma_basic_preserves_replay(v: EngineView, req: ReqView)
    requires
        v.kv == apply_all(Map::<Seq<char>, Seq<char>>::empty(), v.log),
    ensures
        ({
            let s = basic_spec(v, req);
            s.state.kv == apply_all(Map::<Seq<char>, Seq<char>>::empty(), s.state.log)
        }),
{
    let s = basic_spec(v, req);
    if s.state.log.len() > v.log.len() {
        assert(s.state.log.drop_last() =~= v.log);
    }
}

/// The same invariant across a whole transaction run.
pub proof fn lemma_run_preserves_replay(v: EngineView, q: Seq<ReqView>)
    requires
        v.kv == apply_all(Map::<Seq<char>, Seq<char>>::empty(), v.log),
    ensures
        ({
            let r = run_queue(v, q);
            r.state.kv == apply_all(Map::<Seq<char>, Seq<char>>::empty(), r.state.log)
        }),
    decreases q.len(),
{
    if q.len() > 0 {
        lemma_basic_preserves_replay(v, q[0]);
        let first = basic_spec(v, q[0]);
        if first.ok {
            lemma_run_preserves_replay(first.state, q.drop_first());
        }
    }
}

/// Durability at the engine level: every step of the engine keeps the map
/// equal to the replay of its own mutation history, so a restart that
/// replays the log reconstructs exactly the state that was lost.
pub proof fn lemma_step_preserves_replay(v: EngineView, req: ReqView)
    requires
        v.kv == apply_all(Map::<Seq<char>, Seq<char>>::empty(), v.log),
    ensures
        ({
            let s = step_spec(v, req);
            s.state.kv == apply_all(Map::<Seq<char>, Seq<char>>::empty(), s.state.log)
        }),
{
    if !should_queue(req) {
        match opcode_of(req.opcode) {
            OPCode::MULTI => {},
            OPCode::WATCH => {},
            OPCode::EXEC => {
                if v.master && req.txn_id is Some && parses_u64(req.txn_id->0) {
                    let id = dec_val(req.txn_id->0) as u64;
                    if v.txns.contains_key(id) {
                        let txn = v.txns[id];
                        let v1 = EngineView { txns: v.txns.remove(id), ..v };
                        match txn.watch_id {
                            Option::None => {
                                lemma_run_preserves_replay(v1, txn.queue);
                            },
                            Option::Some(wid) => {
                                let k = split_chars(wid, '_')[0];
                                let s_old = suffixes_of(v1.watches, k);
                                let v2 = if v1.watches.contains_key(k) {
                                    EngineView {
                                        watches: v1.watches.insert(
                                            k,
                                            non_matching(s_old, k, wid),
                                        ),
                                        ..v1
                                    }
                                } else {
                                    v1
                                };
                                lemma_run_preserves_replay(v2, txn.queue);
                            },
                        }
                    }
                }
            },
            _ => {
                lemma_basic_preserves_replay(v, req);
            },
        }
    }
}

} // verus!

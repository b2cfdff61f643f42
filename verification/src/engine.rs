//! The engine: one store instance's complete request handler.  A request
//! enters the transaction layer first (queued if it carries a pending
//! transaction id), then the opcode dispatch; mutations log before they
//! apply and publish a replication event on a master.  What the engine
//! cannot do itself — write the log file, send an event to a replica, wait
//! on a channel — it hands back as effects for the surrounding process to
//! perform in order.
use vstd::prelude::*;
use vstd::string::StringExecFns;
use crate::protocol::{
    Request,
    Response,
    ReqView,
    RespView,
    OPCode,
    opcode_of,
    OP_SET_MASTER,
    OP_DEL_MASTER,
};
use crate::store::Store;
use crate::aof::{LogRecord, LogRecView, record_line, format_record, parsed_records, replay_map};
use crate::watch::{WatchTable, invalidate_spec, suffixes_of, watch_id_of, non_matching};
use crate::txn::{TxnTable, TxnQueue, TxnView, is_next_id, next_txn_id, lemma_next_id_unique};
use crate::pubsub::{PubSub, subscribe_spec, publish_spec, publish_count};
use crate::smap::seq_max;
use crate::text::{
    all_digits,
    dec_digits,
    dec_val,
    join_chars,
    parse_u64,
    split_chars,
    u64_to_string,
};

verus! {

/// What the surrounding process must do after a step, in order.
#[derive(Debug)]
pub enum Effect {
    /// Append this line, newline-terminated, to the durability log file.
    AppendLog { line: String },
    /// Publish this apply-from-master event on the replication bus.
    Replicate { event: Request },
    /// Suspend the caller on this channel until one message arrives, and
    /// complete the subscribe response with it.
    AwaitMessage { channel: String },
}

/// The mathematical shape of one effect.
#[verifier::ext_equal]
pub enum EffectView {
    AppendLog { line: Seq<char> },
    Replicate { event: ReqView },
    AwaitMessage { channel: Seq<char> },
}

impl View for Effect {
    type V = EffectView;

    open spec fn view(&self) -> EffectView {
        match self {
            Effect::AppendLog { line } => EffectView::AppendLog { line: line@ },
            Effect::Replicate { event } => EffectView::Replicate { event: event@ },
            Effect::AwaitMessage { channel } => EffectView::AwaitMessage { channel: channel@ },
        }
    }
}

impl DeepView for Effect {
    type V = EffectView;

    open spec fn deep_view(&self) -> EffectView {
        self.view()
    }
}

/// The error a replica answers to an externally-issued write or admin
/// operation: nothing is applied and nothing is logged.
#[derive(Debug)]
pub struct RoleError;

impl RoleError {
    /// The error's text.
    pub fn message(&self) -> (s: String)
        ensures
            s@ == slave_text(),
    {
        let s = String::from_str("The server is slave");
        proof {
            reveal_strlit("The server is slave");
            assert(s@ =~= slave_text());
        }
        s
    }
}

/// The whole state of one engine, mathematically.
#[verifier::ext_equal]
pub struct EngineView {
    pub master: bool,
    pub kv: Map<Seq<char>, Seq<char>>,
    pub log: Seq<LogRecView>,
    pub watches: Map<Seq<char>, Seq<u64>>,
    pub txns: Map<u64, TxnView>,
    pub channels: Map<Seq<char>, u64>,
}

/// One step's outcome: `ok` is false exactly when the request is rejected
/// with a role error, which changes nothing.
#[verifier::ext_equal]
pub struct StepOut {
    pub ok: bool,
    pub state: EngineView,
    pub resp: RespView,
    pub effects: Seq<EffectView>,
}

/// A transaction run's outcome: the state after the queued requests, their
/// response messages in order, whether all of them went through, and the
/// effects they produced.
#[verifier::ext_equal]
pub struct RunOut {
    pub state: EngineView,
    pub msgs: Seq<Seq<char>>,
    pub ok: bool,
    pub effects: Seq<EffectView>,
}

/// The placeholder text an untouched response carries.
pub open spec fn space_text() -> Seq<char> {
    seq![' ']
}

/// The nil marker a GET returns for an absent key.
pub open spec fn nil_text() -> Seq<char> {
    seq!['(', 'n', 'i', 'l', ')']
}

/// The acknowledgement text of a successful mutation.
pub open spec fn ok_text() -> Seq<char> {
    seq!['O', 'K']
}

/// The acknowledgement text of a queued request.
pub open spec fn queued_text() -> Seq<char> {
    seq!['Q', 'U', 'E', 'U', 'E', 'D']
}

/// The payload a DEL returns when the key was found.
pub open spec fn one_text() -> Seq<char> {
    seq!['1']
}

/// The payload a DEL returns when the key was absent.
pub open spec fn zero_text() -> Seq<char> {
    seq!['0']
}

/// The message of an EXEC aborted by an interfering mutation.
pub open spec fn watch_changed_text() -> Seq<char> {
    "The watch key has been changed"@
}

/// The message of an EXEC without a transaction id.
pub open spec fn txn_none_text() -> Seq<char> {
    "The txn_id is none"@
}

/// The message of an EXEC whose transaction id is malformed.
pub open spec fn txn_invalid_text() -> Seq<char> {
    "The txn_id is invalid"@
}

/// The message of an EXEC whose transaction id names nothing pending.
pub open spec fn txn_unknown_text() -> Seq<char> {
    "The transaction is unknown"@
}

/// The text of the role error.
pub open spec fn slave_text() -> Seq<char> {
    "The server is slave"@
}

/// The untouched response to a request: echoes opcode and key, placeholder
/// value, not successful.
pub open spec fn base_resp(req: ReqView) -> RespView {
    RespView { opcode: req.opcode, key: req.key, value: space_text(), success: false }
}

/// A step that rejects the request with a role error: nothing changes.
pub open spec fn role_err(v: EngineView, req: ReqView) -> StepOut {
    StepOut { ok: false, state: v, resp: base_resp(req), effects: Seq::<EffectView>::empty() }
}

/// A step that answers `resp` and changes nothing else.
pub open spec fn plain_step(v: EngineView, resp: RespView) -> StepOut {
    StepOut { ok: true, state: v, resp, effects: Seq::<EffectView>::empty() }
}

/// The apply-from-master event that a committed mutation publishes.
pub open spec fn apply_event(op: int, req: ReqView) -> ReqView {
    ReqView { opcode: op, key: req.key, value: req.value, txn_id: Option::None }
}

/// A request as it is queued into a transaction: same operation, key and
/// value, but no transaction context.
pub open spec fn queued_as(req: ReqView) -> ReqView {
    ReqView { opcode: req.opcode, key: req.key, value: req.value, txn_id: Option::None }
}

/// Whether a text parses as a transaction id.
pub open spec fn parses_u64(t: Seq<char>) -> bool {
    t.len() > 0 && all_digits(t) && dec_val(t) <= u64::MAX
}

/// Whether this request is queued into a pending transaction rather than
/// executed: it is none of MULTI, EXEC and WATCH, and its transaction
/// context is a number.
pub open spec fn should_queue(req: ReqView) -> bool {
    let op = opcode_of(req.opcode);
    &&& op != OPCode::MULTI
    &&& op != OPCode::EXEC
    &&& op != OPCode::WATCH
    &&& req.txn_id is Some
    &&& parses_u64(req.txn_id->0)
}

/// Queue a request into its pending transaction: acknowledged as QUEUED,
/// never executed now.  A context that names no pending transaction is
/// answered as a failure.
pub open spec fn spec_queue(v: EngineView, req: ReqView) -> StepOut
    recommends
        should_queue(req),
{
    let id = dec_val(req.txn_id->0) as u64;
    if v.txns.contains_key(id) {
        let state = EngineView {
            txns: v.txns.insert(
                id,
                TxnView {
                    watch_id: v.txns[id].watch_id,
                    queue: v.txns[id].queue.push(queued_as(req)),
                },
            ),
            ..v
        };
        StepOut {
            ok: true,
            state,
            resp: RespView { opcode: req.opcode, key: req.key, value: queued_text(), success: true },
            effects: Seq::<EffectView>::empty(),
        }
    } else {
        plain_step(v, base_resp(req))
    }
}

/// GET: read the key; absent keys answer the nil marker with success false.
/// Reading changes nothing.
pub open spec fn spec_get(v: EngineView, req: ReqView) -> StepOut {
    plain_step(
        v,
        RespView {
            opcode: req.opcode,
            key: req.key,
            value: if v.kv.contains_key(req.key) {
                v.kv[req.key]
            } else {
                nil_text()
            },
            success: v.kv.contains_key(req.key),
        },
    )
}

/// The log record of a SET.
pub open spec fn set_record(req: ReqView) -> LogRecView {
    LogRecView::SetOp { key: req.key, value: req.value }
}

/// SET and its apply-from-master variant: a replica rejects an external
/// SET; otherwise the mutation is logged first, sweeps the key's foreign
/// watches, binds the key, and on a master publishes its replication event.
pub open spec fn spec_set(v: EngineView, req: ReqView) -> StepOut {
    if !v.master && opcode_of(req.opcode) == OPCode::SET {
        role_err(v, req)
    } else {
        let state = EngineView {
            kv: v.kv.insert(req.key, req.value),
            log: v.log.push(set_record(req)),
            watches: invalidate_spec(v.watches, req.key, req.txn_id),
            ..v
        };
        let log_eff = EffectView::AppendLog { line: record_line(set_record(req)) };
        let effects = if v.master {
            seq![
                log_eff,
                EffectView::Replicate { event: apply_event(OP_SET_MASTER as int, req) },
            ]
        } else {
            seq![log_eff]
        };
        StepOut {
            ok: true,
            state,
            resp: RespView { opcode: req.opcode, key: req.key, value: ok_text(), success: true },
            effects,
        }
    }
}

/// The log record of a DEL.
pub open spec fn del_record(req: ReqView) -> LogRecView {
    LogRecView::DelOp { key: req.key }
}

/// DEL and its apply-from-master variant: a replica rejects an external
/// DEL.  Deleting a bound key is logged, sweeps the key's foreign watches,
/// removes the key, replicates on a master, and answers `1`; deleting an
/// absent key mutates nothing and answers `0`.  Both are successes.
pub open spec fn spec_del(v: EngineView, req: ReqView) -> StepOut {
    if !v.master && opcode_of(req.opcode) == OPCode::DEL {
        role_err(v, req)
    } else if v.kv.contains_key(req.key) {
        let state = EngineView {
            kv: v.kv.remove(req.key),
            log: v.log.push(del_record(req)),
            watches: invalidate_spec(v.watches, req.key, req.txn_id),
            ..v
        };
        let log_eff = EffectView::AppendLog { line: record_line(del_record(req)) };
        let effects = if v.master {
            seq![
                log_eff,
                EffectView::Replicate { event: apply_event(OP_DEL_MASTER as int, req) },
            ]
        } else {
            seq![log_eff]
        };
        StepOut {
            ok: true,
            state,
            resp: RespView { opcode: req.opcode, key: req.key, value: one_text(), success: true },
            effects,
        }
    } else {
        plain_step(
            v,
            RespView { opcode: req.opcode, key: req.key, value: zero_text(), success: true },
        )
    }
}

/// PING: echo the payload.  Answered on any role.
pub open spec fn spec_ping(v: EngineView, req: ReqView) -> StepOut {
    plain_step(
        v,
        RespView { opcode: req.opcode, key: req.key, value: req.value, success: true },
    )
}

/// SUBSCRIBE (master only): register one one-shot subscriber on the
/// channel, then have the caller wait for a single message.  The returned
/// response is a placeholder; the process that performs the wait fills in
/// the received message, or marks failure if the channel closes.
pub open spec fn spec_subscribe(v: EngineView, req: ReqView) -> StepOut {
    if !v.master {
        role_err(v, req)
    } else {
        StepOut {
            ok: true,
            state: EngineView { channels: subscribe_spec(v.channels, req.key), ..v },
            resp: RespView {
                opcode: req.opcode,
                key: req.key,
                value: space_text(),
                success: true,
            },
            effects: seq![EffectView::AwaitMessage { channel: req.key }],
        }
    }
}

/// PUBLISH (master only): deliver to every waiting subscriber and answer
/// their count; with no channel or no subscriber, fail without effect.
pub open spec fn spec_publish(v: EngineView, req: ReqView) -> StepOut {
    if !v.master {
        role_err(v, req)
    } else {
        match publish_count(v.channels, req.key) {
            Option::Some(n) => StepOut {
                ok: true,
                state: EngineView { channels: publish_spec(v.channels, req.key), ..v },
                resp: RespView {
                    opcode: req.opcode,
                    key: req.key,
                    value: dec_digits(n as nat),
                    success: true,
                },
                effects: Seq::<EffectView>::empty(),
            },
            Option::None => plain_step(v, base_resp(req)),
        }
    }
}

/// The dispatch for every request that is not MULTI, EXEC or WATCH and is
/// not queued.  Unknown operations fail with the untouched response.
pub open spec fn basic_spec(v: EngineView, req: ReqView) -> StepOut {
    match opcode_of(req.opcode) {
        OPCode::GET => spec_get(v, req),
        OPCode::SET => spec_set(v, req),
        OPCode::SETMASTER => spec_set(v, req),
        OPCode::DEL => spec_del(v, req),
        OPCode::DELMASTER => spec_del(v, req),
        OPCode::PING => spec_ping(v, req),
        OPCode::SUBSCRIBE => spec_subscribe(v, req),
        OPCode::PUBLISH => spec_publish(v, req),
        _ => plain_step(v, base_resp(req)),
    }
}

/// MULTI (master only): open a transaction bound to the request's context
/// (the watch id, if the client watched), answer its id.  Fails only in the
/// unreachable case that the pending ids are exhausted.
pub open spec fn spec_multi(v: EngineView, req: ReqView) -> StepOut {
    if !v.master {
        role_err(v, req)
    } else if v.txns.contains_key(u64::MAX) {
        plain_step(v, base_resp(req))
    } else {
        let id = next_txn_id(v.txns);
        StepOut {
            ok: true,
            state: EngineView {
                txns: v.txns.insert(
                    id,
                    TxnView { watch_id: req.txn_id, queue: Seq::<ReqView>::empty() },
                ),
                ..v
            },
            resp: RespView {
                opcode: req.opcode,
                key: dec_digits(id as nat),
                value: ok_text(),
                success: true,
            },
            effects: Seq::<EffectView>::empty(),
        }
    }
}

/// WATCH (master only): register a watch on the key and answer its id.
/// Fails only in the unreachable case that the serial numbers are
/// exhausted.
pub open spec fn spec_watch(v: EngineView, req: ReqView) -> StepOut {
    if !v.master {
        role_err(v, req)
    } else {
        let s_old = suffixes_of(v.watches, req.key);
        if s_old.len() > 0 && seq_max(s_old) == u64::MAX {
            plain_step(v, base_resp(req))
        } else {
            let next: u64 = if s_old.len() == 0 {
                0u64
            } else {
                (seq_max(s_old) + 1) as u64
            };
            StepOut {
                ok: true,
                state: EngineView {
                    watches: v.watches.insert(req.key, s_old.push(next)),
                    ..v
                },
                resp: RespView {
                    opcode: req.opcode,
                    key: watch_id_of(req.key, next as nat),
                    value: ok_text(),
                    success: true,
                },
                effects: Seq::<EffectView>::empty(),
            }
        }
    }
}

/// Run a transaction's queue in arrival order, collecting each response's
/// message.  A rejected request stops the run with the role error's text;
/// on a master that cannot happen, so a run goes to the end.
pub open spec fn run_queue(v: EngineView, q: Seq<ReqView>) -> RunOut
    decreases q.len(),
{
    if q.len() == 0 {
        RunOut {
            state: v,
            msgs: Seq::<Seq<char>>::empty(),
            ok: true,
            effects: Seq::<EffectView>::empty(),
        }
    } else {
        let first = basic_spec(v, q[0]);
        if !first.ok {
            RunOut {
                state: first.state,
                msgs: seq![slave_text()],
                ok: false,
                effects: Seq::<EffectView>::empty(),
            }
        } else {
            let rest = run_queue(first.state, q.drop_first());
            RunOut {
                state: rest.state,
                msgs: seq![first.resp.value] + rest.msgs,
                ok: rest.ok,
                effects: first.effects + rest.effects,
            }
        }
    }
}

/// Finish an EXEC whose transaction may run: execute the queue and answer
/// the newline-joined messages.
pub open spec fn spec_exec_run(v: EngineView, q: Seq<ReqView>, req: ReqView) -> StepOut {
    let run = run_queue(v, q);
    StepOut {
        ok: true,
        state: run.state,
        resp: RespView {
            opcode: req.opcode,
            key: req.key,
            value: join_chars(run.msgs, '\n'),
            success: run.ok,
        },
        effects: run.effects,
    }
}

/// EXEC (master only): remove the pending transaction whatever happens.
/// Without a bound watch the queue runs; with one, the watch is consumed
/// and the queue runs only if it was still live — an interfering mutation
/// of the watched key has swept it away, and the transaction aborts with
/// nothing executed.  A missing or malformed transaction id is a
/// recoverable failure, never an abort of the process.
pub open spec fn spec_exec(v: EngineView, req: ReqView) -> StepOut {
    if !v.master {
        role_err(v, req)
    } else {
        match req.txn_id {
            Option::None => plain_step(
                v,
                RespView {
                    opcode: req.opcode,
                    key: req.key,
                    value: txn_none_text(),
                    success: false,
                },
            ),
            Option::Some(t) => {
                if !parses_u64(t) {
                    plain_step(
                        v,
                        RespView {
                            opcode: req.opcode,
                            key: req.key,
                            value: txn_invalid_text(),
                            success: false,
                        },
                    )
                } else {
                    let id = dec_val(t) as u64;
                    if !v.txns.contains_key(id) {
                        plain_step(
                            v,
                            RespView {
                                opcode: req.opcode,
                                key: req.key,
                                value: txn_unknown_text(),
                                success: false,
                            },
                        )
                    } else {
                        let txn = v.txns[id];
                        let v1 = EngineView { txns: v.txns.remove(id), ..v };
                        match txn.watch_id {
                            Option::None => spec_exec_run(v1, txn.queue, req),
                            Option::Some(wid) => {
                                let k = split_chars(wid, '_')[0];
                                let s_old = suffixes_of(v1.watches, k);
                                let live = exists|j: int|
                                    0 <= j < s_old.len() && watch_id_of(
                                        k,
                                        #[trigger] s_old[j] as nat,
                                    ) == wid;
                                let v2 = if v1.watches.contains_key(k) {
                                    EngineView {
                                        watches: v1.watches.insert(
                                            k,
                                            non_matching(s_old, k, wid),
                                        ),
                                        ..v1
                                    }
                                } else {
                                    v1
                                };
                                if live {
                                    spec_exec_run(v2, txn.queue, req)
                                } else {
                                    plain_step(
                                        v2,
                                        RespView {
                                            opcode: req.opcode,
                                            key: req.key,
                                            value: watch_changed_text(),
                                            success: false,
                                        },
                                    )
                                }
                            },
                        }
                    }
                }
            },
        }
    }
}

/// One whole step of the engine on one request.
pub open spec fn step_spec(v: EngineView, req: ReqView) -> StepOut {
    if should_queue(req) {
        spec_queue(v, req)
    } else {
        match opcode_of(req.opcode) {
            OPCode::MULTI => spec_multi(v, req),
            OPCode::EXEC => spec_exec(v, req),
            OPCode::WATCH => spec_watch(v, req),
            _ => basic_spec(v, req),
        }
    }
}

/// The placeholder text.
fn space_string() -> (s: String)
    ensures
        s@ == space_text(),
{
    let s = String::from_str(" ");
    proof {
        reveal_strlit(" ");
        assert(s@ =~= space_text());
    }
    s
}

/// The nil marker.
fn nil_string() -> (s: String)
    ensures
        s@ == nil_text(),
{
    let s = String::from_str("(nil)");
    proof {
        reveal_strlit("(nil)");
        assert(s@ =~= nil_text());
    }
    s
}

/// The mutation acknowledgement.
fn ok_string() -> (s: String)
    ensures
        s@ == ok_text(),
{
    let s = String::from_str("OK");
    proof {
        reveal_strlit("OK");
        assert(s@ =~= ok_text());
    }
    s
}

/// The queueing acknowledgement.
fn queued_string() -> (s: String)
    ensures
        s@ == queued_text(),
{
    let s = String::from_str("QUEUED");
    proof {
        reveal_strlit("QUEUED");
        assert(s@ =~= queued_text());
    }
    s
}

/// The found payload of a DEL.
fn one_string() -> (s: String)
    ensures
        s@ == one_text(),
{
    let s = String::from_str("1");
    proof {
        reveal_strlit("1");
        assert(s@ =~= one_text());
    }
    s
}

/// The not-found payload of a DEL.
fn zero_string() -> (s: String)
    ensures
        s@ == zero_text(),
{
    let s = String::from_str("0");
    proof {
        reveal_strlit("0");
        assert(s@ =~= zero_text());
    }
    s
}

/// The abort message of an interfered EXEC.
fn watch_changed_string() -> (s: String)
    ensures
        s@ == watch_changed_text(),
{
    String::from_str("The watch key has been changed")
}

/// The message of an EXEC without a transaction id.
fn txn_none_string() -> (s: String)
    ensures
        s@ == txn_none_text(),
{
    String::from_str("The txn_id is none")
}

/// The message of an EXEC with a malformed transaction id.
fn txn_invalid_string() -> (s: String)
    ensures
        s@ == txn_invalid_text(),
{
    String::from_str("The txn_id is invalid")
}

/// The message of an EXEC naming no pending transaction.
fn txn_unknown_string() -> (s: String)
    ensures
        s@ == txn_unknown_text(),
{
    String::from_str("The transaction is unknown")
}

/// One store instance's engine: its role, its store, and the three
/// registries of the transaction and pub/sub layers.
pub struct Engine {
    master: bool,
    store: Store,
    watches: WatchTable,
    txns: TxnTable,
    channels: PubSub,
}

impl View for Engine {
    type V = EngineView;

    closed spec fn view(&self) -> EngineView {
        EngineView {
            master: self.master,
            kv: self.store@,
            log: self.store.log(),
            watches: self.watches@,
            txns: self.txns@,
            channels: self.channels@,
        }
    }
}

impl Engine {
    /// Every component is well formed.
    pub closed spec fn wf(&self) -> bool {
        &&& self.store.wf()
        &&& self.watches.wf()
        &&& self.txns.wf()
        &&& self.channels.wf()
    }

    /// Bring an engine up from its durability log: the map is replayed from
    /// the lines in file order before anything is served; watches,
    /// transactions and channels start empty.
    pub fn boot(master: bool, log_lines: &Vec<String>) -> (e: Engine)
        ensures
            e.wf(),
            e@.master == master,
            e@.kv == replay_map(log_lines.deep_view()),
            e@.log == parsed_records(log_lines.deep_view()),
            e@.watches == Map::<Seq<char>, Seq<u64>>::empty(),
            e@.txns == Map::<u64, TxnView>::empty(),
            e@.channels == Map::<Seq<char>, u64>::empty(),
    {
        Engine {
            master,
            store: Store::recover(log_lines),
            watches: WatchTable::new(),
            txns: TxnTable::new(),
            channels: PubSub::new(),
        }
    }

    /// Whether this instance is a master.
    pub fn is_master(&self) -> (r: bool)
        ensures
            r == self@.master,
    {
        self.master
    }

    /// Execute one request that is not MULTI, EXEC or WATCH and carries no
    /// pending transaction context: the plain opcode dispatch.
    fn execute_basic(&mut self, req: Request) -> (out: Result<(Response, Vec<Effect>), RoleError>)
        requires
            old(self).wf(),
        ensures
            final(self).wf(),
            ({
                let s = basic_spec(old(self)@, req@);
                match out {
                    Result::Ok(p) => s.ok && final(self)@ == s.state && p.0@ == s.resp
                        && p.1.deep_view() == s.effects,
                    Result::Err(_) => !s.ok && final(self)@ == old(self)@,
                }
            }),
    {
        let ghost rv = req@;
        let ghost v0 = self@;
        let op = OPCode::from(req.opcode);
        match op {
            OPCode::GET => {
                let value: String;
                let success: bool;
                match self.store.get(&req.key) {
                    Option::Some(v) => {
                        value = v.clone();
                        success = true;
                    },
                    Option::None => {
                        value = nil_string();
                        success = false;
                    },
                }
                let resp = Response { opcode: req.opcode, key: req.key, value, success };
                let effects: Vec<Effect> = Vec::new();
                proof {
                    assert(effects.deep_view() =~= Seq::<EffectView>::empty());
                    assert(resp@ =~~= basic_spec(v0, rv).resp);
                }
                Ok((resp, effects))
            },
            OPCode::SET | OPCode::SETMASTER => {
                if req.opcode == crate::protocol::OP_SET && !self.master {
                    return Err(RoleError);
                }
                let rec = LogRecord::SetOp { key: req.key.clone(), value: req.value.clone() };
                let line = format_record(&rec);
                let mut effects: Vec<Effect> = Vec::new();
                effects.push(Effect::AppendLog { line });
                if self.master {
                    effects.push(
                        Effect::Replicate {
                            event: Request {
                                opcode: OP_SET_MASTER,
                                key: req.key.clone(),
                                value: req.value.clone(),
                                txn_id: None,
                            },
                        },
                    );
                }
                self.watches.invalidate(&req.key, &req.txn_id);
                self.store.set(req.key.clone(), req.value.clone());
                let resp = Response {
                    opcode: req.opcode,
                    key: req.key,
                    value: ok_string(),
                    success: true,
                };
                proof {
                    let s = spec_set(v0, rv);
                    assert(self@ =~~= s.state);
                    assert(resp@ =~~= s.resp);
                    assert(effects.deep_view() =~~= s.effects);
                }
                Ok((resp, effects))
            },
            OPCode::DEL | OPCode::DELMASTER => {
                if req.opcode == crate::protocol::OP_DEL && !self.master {
                    return Err(RoleError);
                }
                let bound = match self.store.get(&req.key) {
                    Option::Some(_) => true,
                    Option::None => false,
                };
                if bound {
                    let rec = LogRecord::DelOp { key: req.key.clone() };
                    let line = format_record(&rec);
                    let mut effects: Vec<Effect> = Vec::new();
                    effects.push(Effect::AppendLog { line });
                    if self.master {
                        effects.push(
                            Effect::Replicate {
                                event: Request {
                                    opcode: OP_DEL_MASTER,
                                    key: req.key.clone(),
                                    value: req.value.clone(),
                                    txn_id: None,
                                },
                            },
                        );
                    }
                    self.watches.invalidate(&req.key, &req.txn_id);
                    let _removed = self.store.del(&req.key);
                    let resp = Response {
                        opcode: req.opcode,
                        key: req.key,
                        value: one_string(),
                        success: true,
                    };
                    proof {
                        let s = spec_del(v0, rv);
                        assert(self@ =~~= s.state);
                        assert(resp@ =~~= s.resp);
                        assert(effects.deep_view() =~~= s.effects);
                    }
                    Ok((resp, effects))
                } else {
                    let resp = Response {
                        opcode: req.opcode,
                        key: req.key,
                        value: zero_string(),
                        success: true,
                    };
                    let effects: Vec<Effect> = Vec::new();
                    proof {
                        assert(effects.deep_view() =~= Seq::<EffectView>::empty());
                        assert(resp@ =~~= spec_del(v0, rv).resp);
                    }
                    Ok((resp, effects))
                }
            },
            OPCode::PING => {
                let resp = Response {
                    opcode: req.opcode,
                    key: req.key,
                    value: req.value,
                    success: true,
                };
                let effects: Vec<Effect> = Vec::new();
                proof {
                    assert(effects.deep_view() =~= Seq::<EffectView>::empty());
                    assert(resp@ =~~= spec_ping(v0, rv).resp);
                }
                Ok((resp, effects))
            },
            OPCode::SUBSCRIBE => {
                if !self.master {
                    return Err(RoleError);
                }
                self.channels.subscribe(&req.key);
                let mut effects: Vec<Effect> = Vec::new();
                effects.push(Effect::AwaitMessage { channel: req.key.clone() });
                let resp = Response {
                    opcode: req.opcode,
                    key: req.key,
                    value: space_string(),
                    success: true,
                };
                proof {
                    let s = spec_subscribe(v0, rv);
                    assert(self@ =~~= s.state);
                    assert(resp@ =~~= s.resp);
                    assert(effects.deep_view() =~~= s.effects);
                }
                Ok((resp, effects))
            },
            OPCode::PUBLISH => {
                if !self.master {
                    return Err(RoleError);
                }
                let effects: Vec<Effect> = Vec::new();
                proof {
                    assert(effects.deep_view() =~= Seq::<EffectView>::empty());
                }
                match self.channels.publish(&req.key) {
                    Option::Some(n) => {
                        let resp = Response {
                            opcode: req.opcode,
                            key: req.key,
                            value: u64_to_string(n),
                            success: true,
                        };
                        proof {
                            let s = spec_publish(v0, rv);
                            assert(self@ =~~= s.state);
                            assert(resp@ =~~= s.resp);
                        }
                        Ok((resp, effects))
                    },
                    Option::None => {
                        let resp = Response {
                            opcode: req.opcode,
                            key: req.key,
                            value: space_string(),
                            success: false,
                        };
                        proof {
                            let s = spec_publish(v0, rv);
                            assert(self@ =~~= s.state);
                            assert(resp@ =~~= s.resp);
                        }
                        Ok((resp, effects))
                    },
                }
            },
            _ => {
                let resp = Response {
                    opcode: req.opcode,
                    key: req.key,
                    value: space_string(),
                    success: false,
                };
                let effects: Vec<Effect> = Vec::new();
                proof {
                    assert(effects.deep_view() =~= Seq::<EffectView>::empty());
                    assert(resp@ =~~= base_resp(rv));
                }
                Ok((resp, effects))
            },
        }
    }

    /// MULTI: open a transaction, binding the request's context — the watch
    /// id, if the client watched — and answer the new transaction id in the
    /// response's key.
    fn do_multi(&mut self, req: Request) -> (out: Result<(Response, Vec<Effect>), RoleError>)
        requires
            old(self).wf(),
        ensures
            final(self).wf(),
            ({
                let s = spec_multi(old(self)@, req@);
                match out {
                    Result::Ok(p) => s.ok && final(self)@ == s.state && p.0@ == s.resp
                        && p.1.deep_view() == s.effects,
                    Result::Err(_) => !s.ok && final(self)@ == old(self)@,
                }
            }),
    {
        if !self.master {
            return Err(RoleError);
        }
        let ghost rv = req@;
        let ghost v0 = self@;
        let r = self.txns.multi(req.txn_id);
        let effects: Vec<Effect> = Vec::new();
        proof {
            assert(effects.deep_view() =~= Seq::<EffectView>::empty());
        }
        match r {
            Option::Some(id) => {
                proof {
                    assert(is_next_id(v0.txns, id));
                    assert(is_next_id(v0.txns, next_txn_id(v0.txns))) by {
                        assert(exists|x: u64| is_next_id(v0.txns, x)) by {
                            assert(is_next_id(v0.txns, id));
                        }
                    }
                    lemma_next_id_unique(v0.txns, id, next_txn_id(v0.txns));
                }
                let resp = Response {
                    opcode: req.opcode,
                    key: u64_to_string(id),
                    value: ok_string(),
                    success: true,
                };
                proof {
                    let s = spec_multi(v0, rv);
                    assert(self@ =~~= s.state);
                    assert(resp@ =~~= s.resp);
                }
                Ok((resp, effects))
            },
            Option::None => {
                let resp = Response {
                    opcode: req.opcode,
                    key: req.key,
                    value: space_string(),
                    success: false,
                };
                proof {
                    assert(resp@ =~~= base_resp(rv));
                }
                Ok((resp, effects))
            },
        }
    }

    /// WATCH: register a watch on the key and answer its id in the
    /// response's key, to be bound into a later MULTI.
    fn do_watch(&mut self, req: Request) -> (out: Result<(Response, Vec<Effect>), RoleError>)
        requires
            old(self).wf(),
        ensures
            final(self).wf(),
            ({
                let s = spec_watch(old(self)@, req@);
                match out {
                    Result::Ok(p) => s.ok && final(self)@ == s.state && p.0@ == s.resp
                        && p.1.deep_view() == s.effects,
                    Result::Err(_) => !s.ok && final(self)@ == old(self)@,
                }
            }),
    {
        if !self.master {
            return Err(RoleError);
        }
        let ghost rv = req@;
        let ghost v0 = self@;
        let effects: Vec<Effect> = Vec::new();
        proof {
            assert(effects.deep_view() =~= Seq::<EffectView>::empty());
        }
        match self.watches.watch(&req.key) {
            Option::Some(id) => {
                let resp = Response {
                    opcode: req.opcode,
                    key: id,
                    value: ok_string(),
                    success: true,
                };
                proof {
                    let s = spec_watch(v0, rv);
                    assert(self@ =~~= s.state);
                    assert(resp@ =~~= s.resp);
                }
                Ok((resp, effects))
            },
            Option::None => {
                let resp = Response {
                    opcode: req.opcode,
                    key: req.key,
                    value: space_string(),
                    success: false,
                };
                proof {
                    assert(resp@ =~~= base_resp(rv));
                }
                Ok((resp, effects))
            },
        }
    }

    /// EXEC: close the pending transaction — removed whatever the outcome —
    /// and run its queue in arrival order unless the bound watch was swept
    /// away by an interfering mutation, in which case nothing is executed.
    fn do_exec(&mut self, req: Request) -> (out: Result<(Response, Vec<Effect>), RoleError>)
        requires
            old(self).wf(),
        ensures
            final(self).wf(),
            ({
                let s = spec_exec(old(self)@, req@);
                match out {
                    Result::Ok(p) => s.ok && final(self)@ == s.state && p.0@ == s.resp
                        && p.1.deep_view() == s.effects,
                    Result::Err(_) => !s.ok && final(self)@ == old(self)@,
                }
            }),
    {
        if !self.master {
            return Err(RoleError);
        }
        let ghost rv = req@;
        let ghost v0 = self@;
        let id: u64 = match &req.txn_id {
            Option::None => {
                let resp = Response {
                    opcode: req.opcode,
                    key: req.key,
                    value: txn_none_string(),
                    success: false,
                };
                return Ok((resp, Vec::new()));
            },
            Option::Some(t) => {
                match parse_u64(t.as_str()) {
                    Option::Some(id) => id,
                    Option::None => {
                        let resp = Response {
                            opcode: req.opcode,
                            key: req.key,
                            value: txn_invalid_string(),
                            success: false,
                        };
                        return Ok((resp, Vec::new()));
                    },
                }
            },
        };
        let mut tq: TxnQueue = match self.txns.take(id) {
            Option::Some(t) => t,
            Option::None => {
                let resp = Response {
                    opcode: req.opcode,
                    key: req.key,
                    value: txn_unknown_string(),
                    success: false,
                };
                proof {
                    assert(self@ =~~= v0);
                }
                return Ok((resp, Vec::new()));
            },
        };
        let can_run: bool = match tq.get_watch_id() {
            Option::Some(wid) => self.watches.consume(&wid),
            Option::None => true,
        };
        if !can_run {
            let resp = Response {
                opcode: req.opcode,
                key: req.key,
                value: watch_changed_string(),
                success: false,
            };
            proof {
                let s = spec_exec(v0, rv);
                assert(self@ =~~= s.state);
                assert(resp@ =~~= s.resp);
            }
            let effects: Vec<Effect> = Vec::new();
            proof {
                assert(effects.deep_view() =~= Seq::<EffectView>::empty());
            }
            return Ok((resp, effects));
        }
        let ghost v2 = self@;
        let ghost fullq = tq@.queue;
        let ghost target = run_queue(v2, fullq);
        let mut effects: Vec<Effect> = Vec::new();
        let mut msg = String::new();
        let mut okall = true;
        let mut running = true;
        let mut first = true;
        let ghost mut done: Seq<Seq<char>> = Seq::<Seq<char>>::empty();
        proof {
            assert(effects.deep_view() =~= Seq::<EffectView>::empty());
            assert(done + run_queue(self@, tq@.queue).msgs =~= run_queue(self@, tq@.queue).msgs);
            assert(effects.deep_view() + run_queue(self@, tq@.queue).effects =~= run_queue(
                self@,
                tq@.queue,
            ).effects);
            assert(join_chars(done, '\n') =~= Seq::<char>::empty());
        }
        while running
            invariant
                self.wf(),
                first == (done.len() == 0),
                msg@ == join_chars(done, '\n'),
                okall ==> target.state == run_queue(self@, tq@.queue).state && target.ok
                    == run_queue(self@, tq@.queue).ok && target.msgs == done + run_queue(
                    self@,
                    tq@.queue,
                ).msgs && target.effects == effects.deep_view() + run_queue(
                    self@,
                    tq@.queue,
                ).effects,
                !okall ==> !running && target.state == self@ && !target.ok && target.msgs == done
                    && target.effects == effects.deep_view(),
                okall && !running ==> tq@.queue.len() == 0,
            decreases tq@.queue.len() + (if running {
                1int
            } else {
                0int
            }),
        {
            let ghost pre_state = self@;
            let ghost pre_queue = tq@.queue;
            match tq.pop() {
                Option::None => {
                    running = false;
                },
                Option::Some(q) => {
                    let ghost qv = q@;
                    proof {
                        assert(pre_queue[0] == qv);
                        assert(tq@.queue == pre_queue.drop_first());
                    }
                    match self.execute_basic(q) {
                        Result::Ok((r, more)) => {
                            let mut more = more;
                            proof {
                                if done.len() >= 1 {
                                    crate::text::lemma_join_push(done, '\n', r@.value);
                                } else {
                                    assert(done.push(r@.value) =~= seq![r@.value]);
                                    assert(join_chars(seq![r@.value], '\n') == r@.value);
                                }
                            }
                            if first {
                                msg.append(r.value.as_str());
                                first = false;
                            } else {
                                proof {
                                    reveal_strlit("\n");
                                }
                                msg.append("\n");
                                msg.append(r.value.as_str());
                            }
                            effects.append(&mut more);
                            proof {
                                done = done.push(r@.value);
                                let s = basic_spec(pre_state, qv);
                                assert(s.ok);
                                assert(run_queue(pre_state, pre_queue).state == run_queue(
                                    self@,
                                    tq@.queue,
                                ).state);
                                assert(run_queue(pre_state, pre_queue).msgs =~= seq![r@.value]
                                    + run_queue(self@, tq@.queue).msgs);
                                assert(run_queue(pre_state, pre_queue).effects =~= s.effects
                                    + run_queue(self@, tq@.queue).effects);
                                if okall {
                                    assert(target.msgs =~= done + run_queue(
                                        self@,
                                        tq@.queue,
                                    ).msgs);
                                    assert(target.effects =~= effects.deep_view() + run_queue(
                                        self@,
                                        tq@.queue,
                                    ).effects);
                                }
                            }
                        },
                        Result::Err(e) => {
                            let m = e.message();
                            proof {
                                if done.len() >= 1 {
                                    crate::text::lemma_join_push(done, '\n', m@);
                                } else {
                                    assert(done.push(m@) =~= seq![m@]);
                                    assert(join_chars(seq![m@], '\n') == m@);
                                }
                            }
                            if first {
                                msg.append(m.as_str());
                                first = false;
                            } else {
                                proof {
                                    reveal_strlit("\n");
                                }
                                msg.append("\n");
                                msg.append(m.as_str());
                            }
                            proof {
                                done = done.push(slave_text());
                                let s = basic_spec(pre_state, qv);
                                assert(!s.ok);
                                assert(run_queue(pre_state, pre_queue).state == self@);
                                assert(run_queue(pre_state, pre_queue).msgs =~= seq![
                                    slave_text(),
                                ]);
                                if okall {
                                    assert(target.msgs =~= done);
                                    assert(target.effects =~= effects.deep_view());
                                }
                            }
                            okall = false;
                            running = false;
                        },
                    }
                },
            }
        }
        let resp = Response { opcode: req.opcode, key: req.key, value: msg, success: okall };
        proof {
            let s = spec_exec(v0, rv);
            if okall {
                assert(run_queue(self@, tq@.queue).msgs =~= Seq::<Seq<char>>::empty());
                assert(done + Seq::<Seq<char>>::empty() =~= done);
                assert(effects.deep_view() + Seq::<EffectView>::empty() =~= effects.deep_view());
                assert(target.msgs == done);
                assert(target.effects == effects.deep_view());
                assert(target.state == self@);
            }
            assert(s.state == target.state);
            assert(self@ =~~= s.state);
            assert(resp@ =~~= s.resp);
            assert(effects.deep_view() =~~= s.effects);
        }
        Ok((resp, effects))
    }

    /// Handle one request and answer exactly one response, with the effects
    /// the surrounding process must perform in order.  A request that
    /// carries a pending transaction id (and is none of MULTI, EXEC and
    /// WATCH) is queued, not executed; an externally-issued write or admin
    /// operation on a replica is rejected with the role error, changing
    /// nothing.
    pub fn handle(&mut self, req: Request) -> (out: Result<(Response, Vec<Effect>), RoleError>)
        requires
            old(self).wf(),
        ensures
            final(self).wf(),
            ({
                let s = step_spec(old(self)@, req@);
                match out {
                    Result::Ok(p) => s.ok && final(self)@ == s.state && p.0@ == s.resp
                        && p.1.deep_view() == s.effects,
                    Result::Err(_) => !s.ok && final(self)@ == old(self)@,
                }
            }),
    {
        let ghost rv = req@;
        let ghost v0 = self@;
        let op = OPCode::from(req.opcode);
        if op != OPCode::MULTI && op != OPCode::EXEC && op != OPCode::WATCH {
            let queue_id: Option<u64> = match &req.txn_id {
                Option::Some(t) => parse_u64(t.as_str()),
                Option::None => None,
            };
            match queue_id {
                Option::Some(id) => {
                    proof {
                        assert(should_queue(rv));
                        assert(id == dec_val(rv.txn_id->0) as u64);
                    }
                    let qreq = Request {
                        opcode: req.opcode,
                        key: req.key.clone(),
                        value: req.value.clone(),
                        txn_id: None,
                    };
                    proof {
                        assert(qreq@ =~~= queued_as(rv));
                    }
                    let ok = self.txns.enqueue(id, qreq);
                    let resp = if ok {
                        Response {
                            opcode: req.opcode,
                            key: req.key,
                            value: queued_string(),
                            success: true,
                        }
                    } else {
                        Response {
                            opcode: req.opcode,
                            key: req.key,
                            value: space_string(),
                            success: false,
                        }
                    };
                    let effects: Vec<Effect> = Vec::new();
                    proof {
                        assert(effects.deep_view() =~= Seq::<EffectView>::empty());
                        let s = spec_queue(v0, rv);
                        assert(self@ =~~= s.state);
                        assert(resp@ =~~= s.resp);
                    }
                    return Ok((resp, effects));
                },
                Option::None => {
                    proof {
                        assert(!should_queue(rv));
                    }
                },
            }
        }
        match op {
            OPCode::MULTI => self.do_multi(req),
            OPCode::EXEC => self.do_exec(req),
            OPCode::WATCH => self.do_watch(req),
            _ => self.execute_basic(req),
        }
    }
}

} // verus!

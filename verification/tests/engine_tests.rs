use mini_redis::engine::{Effect, Engine};
use mini_redis::protocol::{
    Request, OP_DEL, OP_DEL_MASTER, OP_EXEC, OP_GET, OP_MULTI, OP_PING, OP_PUBLISH, OP_SET,
    OP_SET_MASTER, OP_SUBSCRIBE, OP_WATCH,
};

fn req(opcode: i32, key: &str, value: &str, txn_id: Option<&str>) -> Request {
    Request {
        opcode,
        key: String::from(key),
        value: String::from(value),
        txn_id: txn_id.map(String::from),
    }
}

fn master() -> Engine {
    Engine::boot(true, &Vec::new())
}

fn replica() -> Engine {
    Engine::boot(false, &Vec::new())
}

#[test]
fn set_then_get_returns_the_value() {
    let mut e = master();
    let (r, _) = e.handle(req(OP_SET, "k", "v", None)).unwrap();
    assert!(r.success);
    assert_eq!(r.value, "OK");
    let (g, effs) = e.handle(req(OP_GET, "k", " ", None)).unwrap();
    assert!(g.success);
    assert_eq!(g.value, "v");
    assert!(effs.is_empty());
}

#[test]
fn set_overwrites_and_get_follows() {
    let mut e = master();
    e.handle(req(OP_SET, "k", "v1", None)).unwrap();
    e.handle(req(OP_SET, "k", "v2", None)).unwrap();
    let (g, _) = e.handle(req(OP_GET, "k", " ", None)).unwrap();
    assert_eq!(g.value, "v2");
}

#[test]
fn get_of_absent_key_is_nil_and_repeatable() {
    let mut e = master();
    for _ in 0..2 {
        let (g, effs) = e.handle(req(OP_GET, "missing", " ", None)).unwrap();
        assert!(!g.success);
        assert_eq!(g.value, "(nil)");
        assert!(effs.is_empty());
    }
}

#[test]
fn set_produces_log_line_and_replication_event() {
    let mut e = master();
    let (_, effs) = e.handle(req(OP_SET, "k", "v", None)).unwrap();
    assert_eq!(effs.len(), 2);
    match &effs[0] {
        Effect::AppendLog { line } => assert_eq!(line, "SET k v"),
        _ => panic!("the log line must come first"),
    }
    match &effs[1] {
        Effect::Replicate { event } => {
            assert_eq!(event.opcode, OP_SET_MASTER);
            assert_eq!(event.key, "k");
            assert_eq!(event.value, "v");
            assert!(event.txn_id.is_none());
        },
        _ => panic!("a master's mutation must replicate"),
    }
}

#[test]
fn del_reports_found_then_not_found() {
    let mut e = master();
    e.handle(req(OP_SET, "k", "v", None)).unwrap();
    let (d1, effs) = e.handle(req(OP_DEL, "k", " ", None)).unwrap();
    assert!(d1.success);
    assert_eq!(d1.value, "1");
    assert_eq!(effs.len(), 2);
    match &effs[0] {
        Effect::AppendLog { line } => assert_eq!(line, "DEL k"),
        _ => panic!("a found delete must log"),
    }
    match &effs[1] {
        Effect::Replicate { event } => assert_eq!(event.opcode, OP_DEL_MASTER),
        _ => panic!("a found delete must replicate"),
    }
    let (d2, effs2) = e.handle(req(OP_DEL, "k", " ", None)).unwrap();
    assert!(d2.success);
    assert_eq!(d2.value, "0");
    assert!(effs2.is_empty());
}

#[test]
fn ping_echoes_its_payload() {
    let mut e = replica();
    let (p, _) = e.handle(req(OP_PING, " ", "pong", None)).unwrap();
    assert!(p.success);
    assert_eq!(p.value, "pong");
}

#[test]
fn unknown_opcode_fails() {
    let mut e = master();
    let (r, _) = e.handle(req(42, "k", "v", None)).unwrap();
    assert!(!r.success);
}

#[test]
fn replica_rejects_external_writes() {
    let mut e = replica();
    assert!(e.handle(req(OP_SET, "k", "v", None)).is_err());
    assert!(e.handle(req(OP_DEL, "k", " ", None)).is_err());
    assert!(e.handle(req(OP_SUBSCRIBE, "c", " ", None)).is_err());
    assert!(e.handle(req(OP_PUBLISH, "c", "m", None)).is_err());
    assert!(e.handle(req(OP_MULTI, " ", " ", None)).is_err());
    assert!(e.handle(req(OP_EXEC, " ", " ", Some("0"))).is_err());
    assert!(e.handle(req(OP_WATCH, "k", " ", None)).is_err());
}

#[test]
fn role_error_names_the_role() {
    let mut e = replica();
    let err = e.handle(req(OP_SET, "k", "v", None)).unwrap_err();
    assert_eq!(err.message(), "The server is slave");
}

#[test]
fn replica_accepts_apply_from_master() {
    let mut e = replica();
    let (r, effs) = e.handle(req(OP_SET_MASTER, "k", "v", None)).unwrap();
    assert!(r.success);
    assert_eq!(effs.len(), 1);
    match &effs[0] {
        Effect::AppendLog { line } => assert_eq!(line, "SET k v"),
        _ => panic!("a replica logs the applied mutation but replicates nothing"),
    }
    let (g, _) = e.handle(req(OP_GET, "k", " ", None)).unwrap();
    assert_eq!(g.value, "v");
    let (d, _) = e.handle(req(OP_DEL_MASTER, "k", " ", None)).unwrap();
    assert!(d.success);
    assert_eq!(d.value, "1");
}

#[test]
fn boot_replays_the_log() {
    let lines = vec![
        String::from("SET a 1"),
        String::from("SET a 2"),
        String::from("DEL missing"),
    ];
    let mut e = Engine::boot(true, &lines);
    let (g, _) = e.handle(req(OP_GET, "a", " ", None)).unwrap();
    assert_eq!(g.value, "2");
}

#[test]
fn watch_ids_count_up_per_key() {
    let mut e = master();
    let (w0, _) = e.handle(req(OP_WATCH, "k", " ", None)).unwrap();
    assert!(w0.success);
    assert_eq!(w0.key, "k_0");
    let (w1, _) = e.handle(req(OP_WATCH, "k", " ", None)).unwrap();
    assert_eq!(w1.key, "k_1");
    let (other, _) = e.handle(req(OP_WATCH, "other", " ", None)).unwrap();
    assert_eq!(other.key, "other_0");
}

#[test]
fn multi_ids_count_up() {
    let mut e = master();
    let (m0, _) = e.handle(req(OP_MULTI, " ", " ", None)).unwrap();
    assert!(m0.success);
    assert_eq!(m0.key, "0");
    let (m1, _) = e.handle(req(OP_MULTI, " ", " ", None)).unwrap();
    assert_eq!(m1.key, "1");
}

#[test]
fn queued_request_is_acknowledged_not_executed() {
    let mut e = master();
    e.handle(req(OP_MULTI, " ", " ", None)).unwrap();
    let (q, effs) = e.handle(req(OP_SET, "k", "v", Some("0"))).unwrap();
    assert!(q.success);
    assert_eq!(q.value, "QUEUED");
    assert!(effs.is_empty());
    let (g, _) = e.handle(req(OP_GET, "k", " ", None)).unwrap();
    assert!(!g.success);
}

#[test]
fn queueing_to_unknown_transaction_fails() {
    let mut e = master();
    let (q, _) = e.handle(req(OP_SET, "k", "v", Some("7"))).unwrap();
    assert!(!q.success);
}

#[test]
fn txn_commits_without_interference() {
    let mut e = master();
    let (w, _) = e.handle(req(OP_WATCH, "k", " ", None)).unwrap();
    let wid = w.key;
    let (m, _) = e.handle(req(OP_MULTI, " ", " ", Some(wid.as_str()))).unwrap();
    let tid = m.key;
    let (q, _) = e.handle(req(OP_SET, "k", "v1", Some(tid.as_str()))).unwrap();
    assert_eq!(q.value, "QUEUED");
    let (x, effs) = e.handle(req(OP_EXEC, " ", " ", Some(tid.as_str()))).unwrap();
    assert!(x.success);
    assert_eq!(x.value, "OK");
    assert_eq!(effs.len(), 2);
    let (g, _) = e.handle(req(OP_GET, "k", " ", None)).unwrap();
    assert_eq!(g.value, "v1");
}

#[test]
fn txn_aborts_under_interference() {
    let mut e = master();
    let (w, _) = e.handle(req(OP_WATCH, "k", " ", None)).unwrap();
    let wid = w.key;
    let (m, _) = e.handle(req(OP_MULTI, " ", " ", Some(wid.as_str()))).unwrap();
    let tid = m.key;
    // A concurrent client mutates the watched key from another context.
    e.handle(req(OP_SET, "k", "v2", None)).unwrap();
    let (q, _) = e.handle(req(OP_SET, "k", "v3", Some(tid.as_str()))).unwrap();
    assert_eq!(q.value, "QUEUED");
    let (x, effs) = e.handle(req(OP_EXEC, " ", " ", Some(tid.as_str()))).unwrap();
    assert!(!x.success);
    assert_eq!(x.value, "The watch key has been changed");
    assert!(effs.is_empty());
    let (g, _) = e.handle(req(OP_GET, "k", " ", None)).unwrap();
    assert_eq!(g.value, "v2");
}

#[test]
fn own_transaction_keeps_its_watch_alive() {
    let mut e = master();
    let (w, _) = e.handle(req(OP_WATCH, "k", " ", None)).unwrap();
    let wid = w.key;
    // A mutation carrying the watch id as its context retains that watch.
    e.handle(req(OP_SET, "k", "mine", Some(wid.as_str()))).unwrap();
    let (m, _) = e.handle(req(OP_MULTI, " ", " ", Some(wid.as_str()))).unwrap();
    let tid = m.key;
    e.handle(req(OP_SET, "k", "v1", Some(tid.as_str()))).unwrap();
    let (x, _) = e.handle(req(OP_EXEC, " ", " ", Some(tid.as_str()))).unwrap();
    assert!(x.success);
    let (g, _) = e.handle(req(OP_GET, "k", " ", None)).unwrap();
    assert_eq!(g.value, "v1");
}

#[test]
fn exec_collects_each_response_message() {
    let mut e = master();
    let (m, _) = e.handle(req(OP_MULTI, " ", " ", None)).unwrap();
    let tid = m.key;
    e.handle(req(OP_SET, "a", "1", Some(tid.as_str()))).unwrap();
    e.handle(req(OP_SET, "b", "2", Some(tid.as_str()))).unwrap();
    e.handle(req(OP_GET, "a", " ", Some(tid.as_str()))).unwrap();
    let (x, _) = e.handle(req(OP_EXEC, " ", " ", Some(tid.as_str()))).unwrap();
    assert!(x.success);
    assert_eq!(x.value, "OK\nOK\n1");
}

#[test]
fn exec_without_transaction_id_fails() {
    let mut e = master();
    let (x, _) = e.handle(req(OP_EXEC, " ", " ", None)).unwrap();
    assert!(!x.success);
    assert_eq!(x.value, "The txn_id is none");
}

#[test]
fn exec_with_malformed_transaction_id_fails() {
    let mut e = master();
    let (x, _) = e.handle(req(OP_EXEC, " ", " ", Some("not-a-number"))).unwrap();
    assert!(!x.success);
    assert_eq!(x.value, "The txn_id is invalid");
}

#[test]
fn exec_of_unknown_transaction_is_recoverable() {
    let mut e = master();
    let (x, _) = e.handle(req(OP_EXEC, " ", " ", Some("99"))).unwrap();
    assert!(!x.success);
    assert_eq!(x.value, "The transaction is unknown");
    // The engine still serves requests afterwards.
    let (r, _) = e.handle(req(OP_SET, "k", "v", None)).unwrap();
    assert!(r.success);
}

#[test]
fn exec_is_terminal_either_way() {
    let mut e = master();
    let (m, _) = e.handle(req(OP_MULTI, " ", " ", None)).unwrap();
    let tid = m.key;
    e.handle(req(OP_EXEC, " ", " ", Some(tid.as_str()))).unwrap();
    let (x2, _) = e.handle(req(OP_EXEC, " ", " ", Some(tid.as_str()))).unwrap();
    assert!(!x2.success);
    assert_eq!(x2.value, "The transaction is unknown");
}

#[test]
fn publish_before_subscribe_fails() {
    let mut e = master();
    let (p, _) = e.handle(req(OP_PUBLISH, "chan", "hello", None)).unwrap();
    assert!(!p.success);
}

#[test]
fn one_subscriber_gets_counted_once() {
    let mut e = master();
    let (s, effs) = e.handle(req(OP_SUBSCRIBE, "chan", " ", None)).unwrap();
    assert!(s.success);
    assert_eq!(effs.len(), 1);
    match &effs[0] {
        Effect::AwaitMessage { channel } => assert_eq!(channel, "chan"),
        _ => panic!("a subscribe must wait for one message"),
    }
    let (p, _) = e.handle(req(OP_PUBLISH, "chan", "hello", None)).unwrap();
    assert!(p.success);
    assert_eq!(p.value, "1");
    // The subscription was one-shot: the next publish finds nobody.
    let (p2, _) = e.handle(req(OP_PUBLISH, "chan", "again", None)).unwrap();
    assert!(!p2.success);
}

#[test]
fn two_subscribers_are_both_counted() {
    let mut e = master();
    e.handle(req(OP_SUBSCRIBE, "chan", " ", None)).unwrap();
    e.handle(req(OP_SUBSCRIBE, "chan", " ", None)).unwrap();
    let (p, _) = e.handle(req(OP_PUBLISH, "chan", "hello", None)).unwrap();
    assert!(p.success);
    assert_eq!(p.value, "2");
}

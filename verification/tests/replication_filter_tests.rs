use mini_redis::filter::LogLayer;
use mini_redis::protocol::{Request, OP_SET_MASTER, OP_TERMINATE};
use mini_redis::replication::{sync_step, terminate_event, SyncStep};

#[test]
fn terminate_event_carries_the_sentinel_opcode() {
    let t = terminate_event();
    assert_eq!(t.opcode, OP_TERMINATE);
    assert!(t.txn_id.is_none());
}

#[test]
fn forwarding_stops_on_the_sentinel() {
    match sync_step(&terminate_event()) {
        SyncStep::Stop => {},
        SyncStep::Forward { .. } => panic!("the sentinel must end the forwarding task"),
    }
}

#[test]
fn forwarding_passes_events_through_unchanged() {
    let event = Request {
        opcode: OP_SET_MASTER,
        key: String::from("k"),
        value: String::from("v"),
        txn_id: None,
    };
    match sync_step(&event) {
        SyncStep::Forward { req } => {
            assert_eq!(req.opcode, OP_SET_MASTER);
            assert_eq!(req.key, "k");
            assert_eq!(req.value, "v");
            assert!(req.txn_id.is_none());
        },
        SyncStep::Stop => panic!("an ordinary event must be forwarded"),
    }
}

#[test]
fn filter_rejects_the_banned_pair() {
    let text: Vec<char> = "say xy now".chars().collect();
    assert!(!LogLayer::permits(&text, 'x', 'y'));
}

#[test]
fn filter_passes_clean_text() {
    let text: Vec<char> = "say y then x".chars().collect();
    assert!(LogLayer::permits(&text, 'x', 'y'));
}

#[test]
fn filter_passes_empty_text() {
    let text: Vec<char> = Vec::new();
    assert!(LogLayer::permits(&text, 'x', 'y'));
}

#[test]
fn filter_sees_the_pair_at_the_edges() {
    let start: Vec<char> = "xy tail".chars().collect();
    assert!(!LogLayer::permits(&start, 'x', 'y'));
    let end: Vec<char> = "head xy".chars().collect();
    assert!(!LogLayer::permits(&end, 'x', 'y'));
}

use mini_redis::protocol::{OP_DEL, OP_DEL_MASTER, OP_GET, OP_PING, OP_SET, OP_SET_MASTER};
use mini_redis::router::{key_hash, RouteDecision, ShardTable, Target};

fn table() -> ShardTable {
    // Three masters: two replicas, none, one.
    ShardTable::new(vec![2, 0, 1])
}

#[test]
fn hashing_is_deterministic() {
    assert_eq!(key_hash("alpha"), key_hash("alpha"));
    assert_ne!(key_hash("alpha"), key_hash("beta"));
}

#[test]
fn same_key_always_same_shard() {
    let t = table();
    let k = String::from("some-key");
    let s = t.shard_of(&k);
    for _ in 0..8 {
        assert_eq!(t.shard_of(&k), s);
    }
    assert!(s < 3);
}

#[test]
fn writes_go_to_the_shards_master() {
    let t = table();
    let k = String::from("some-key");
    let s = t.shard_of(&k);
    for opcode in [OP_SET, OP_DEL] {
        match t.route(opcode, &k, 17) {
            RouteDecision::Forward { target: Target::Master { shard } } => assert_eq!(shard, s),
            _ => panic!("a write must reach its shard's master"),
        }
    }
}

#[test]
fn gets_stay_on_the_keys_shard() {
    let t = table();
    let k = String::from("some-key");
    let s = t.shard_of(&k);
    for draw in 0..20usize {
        match t.route(OP_GET, &k, draw) {
            RouteDecision::Forward { target: Target::Master { shard } } => {
                assert_eq!(shard, s);
            },
            RouteDecision::Forward { target: Target::Replica { shard, index } } => {
                assert_eq!(shard, s);
                assert!(index < if s == 0 { 2 } else { 1 });
            },
            _ => panic!("a GET must be forwarded"),
        }
    }
}

#[test]
fn get_draws_cover_master_and_replicas() {
    // Shard 0 has two replicas and one master: three equally weighted
    // choices, picked by draw modulo three.
    let t = ShardTable::new(vec![2]);
    let k = String::from("k");
    let mut saw_master = false;
    let mut saw_replica = [false, false];
    for draw in 0..3usize {
        match t.route(OP_GET, &k, draw) {
            RouteDecision::Forward { target: Target::Master { shard } } => {
                assert_eq!(shard, 0);
                saw_master = true;
            },
            RouteDecision::Forward { target: Target::Replica { shard, index } } => {
                assert_eq!(shard, 0);
                saw_replica[index] = true;
            },
            _ => panic!("a GET must be forwarded"),
        }
    }
    assert!(saw_master && saw_replica[0] && saw_replica[1]);
}

#[test]
fn ping_is_answered_locally() {
    let t = table();
    assert_eq!(t.route(OP_PING, &String::from("k"), 3), RouteDecision::AnswerLocally);
}

#[test]
fn internal_apply_operations_never_pass_the_router() {
    let t = table();
    let k = String::from("k");
    assert_eq!(t.route(OP_SET_MASTER, &k, 0), RouteDecision::RejectInternal);
    assert_eq!(t.route(OP_DEL_MASTER, &k, 0), RouteDecision::RejectInternal);
}

#[test]
fn route_request_stays_on_the_keys_shard() {
    let t = table();
    let k = String::from("another-key");
    let s = t.shard_of(&k);
    for _ in 0..16 {
        match t.route_request(OP_GET, &k) {
            RouteDecision::Forward { target: Target::Master { shard } } => assert_eq!(shard, s),
            RouteDecision::Forward { target: Target::Replica { shard, .. } } => {
                assert_eq!(shard, s)
            },
            _ => panic!("a GET must be forwarded"),
        }
    }
}

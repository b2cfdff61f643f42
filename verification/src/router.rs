//! The shard router.  A table of N master endpoints, each with its replicas,
//! partitions the keyspace: a key's shard is a stable hash of the key modulo
//! N, the same on every call.  Writes go to the shard's master; a GET is
//! load-balanced uniformly over the master and its replicas; PING is
//! answered locally; the internal apply-from-master operations never pass
//! the router.
use vstd::prelude::*;
use crate::protocol::{OP_GET, OP_PING, OP_SET_MASTER, OP_DEL_MASTER};

verus! {

/// Offset basis of the running key hash.
pub const HASH_BASIS: u64 = 0xcbf29ce484222325;

/// Multiplier of the running key hash.
pub const HASH_PRIME: u64 = 0x100000001b3;

/// One step of the running hash: fold one character in.
pub open spec fn hash_step(h: u64, c: char) -> u64 {
    ((((h ^ (c as u64)) as nat) * (HASH_PRIME as nat)) % 0x1_0000_0000_0000_0000) as u64
}

/// The stable hash of a key: a pure function of its characters, so the same
/// key always hashes the same.
pub open spec fn hash_chars(s: Seq<char>) -> u64
    decreases s.len(),
{
    if s.len() == 0 {
        HASH_BASIS
    } else {
        hash_step(hash_chars(s.drop_last()), s.last())
    }
}

/// The shard that owns a key, among `n` masters: the key's hash, taken as a
/// machine word, modulo `n`.
pub open spec fn shard_of_spec(key: Seq<char>, n: nat) -> nat
    recommends
        n > 0,
{
    ((hash_chars(key) as usize) as nat) % n
}

/// Where the router sends one request.
#[derive(PartialEq, Eq, Structural, Clone, Copy, Debug)]
pub enum Target {
    Master { shard: usize },
    Replica { shard: usize, index: usize },
}

/// The router's decision on one request.
#[derive(PartialEq, Eq, Structural, Clone, Copy, Debug)]
pub enum RouteDecision {
    Forward { target: Target },
    AnswerLocally,
    RejectInternal,
}

/// The routing rule.  `table[s]` is the replica count of shard `s`; `draw`
/// is the balancer's random draw for a GET.
pub open spec fn route_spec(table: Seq<usize>, opcode: int, key: Seq<char>, draw: nat) -> RouteDecision
    recommends
        table.len() > 0,
{
    if opcode == OP_SET_MASTER as int || opcode == OP_DEL_MASTER as int {
        RouteDecision::RejectInternal
    } else if opcode == OP_PING as int {
        RouteDecision::AnswerLocally
    } else {
        let shard = shard_of_spec(key, table.len() as nat);
        if opcode == OP_GET as int {
            let choices = table[shard as int] + 1;
            let pick = draw % choices as nat;
            if pick == (choices - 1) as nat {
                RouteDecision::Forward { target: Target::Master { shard: shard as usize } }
            } else {
                RouteDecision::Forward {
                    target: Target::Replica { shard: shard as usize, index: pick as usize },
                }
            }
        } else {
            RouteDecision::Forward { target: Target::Master { shard: shard as usize } }
        }
    }
}

/// Hash a key for sharding.
pub fn key_hash(key: &str) -> (h: u64)
    ensures
        h == hash_chars(key@),
{
    let n = key.unicode_len();
    let mut h: u64 = HASH_BASIS;
    let mut i: usize = 0;
    while i < n
        invariant
            i <= n == key@.len(),
            h == hash_chars(key@.take(i as int)),
        decreases n - i,
    {
        proof {
            assert(key@.take(i + 1).drop_last() =~= key@.take(i as int));
            assert(key@.take(i + 1).last() == key@[i as int]);
        }
        let c = key.get_char(i);
        h = (h ^ (c as u64)).wrapping_mul(HASH_PRIME);
        i = i + 1;
    }
    proof {
        assert(key@.take(n as int) =~= key@);
    }
    h
}

/// The routing configuration: one entry per master shard, holding how many
/// replicas that shard has.  Immutable after construction.
pub struct ShardTable {
    replica_counts: Vec<usize>,
}

impl ShardTable {
    /// At least one master, and every replica count leaves room for the
    /// master itself among the choices.
    pub closed spec fn wf(&self) -> bool {
        &&& self.replica_counts@.len() > 0
        &&& forall|i: int|
            0 <= i < self.replica_counts@.len() ==> #[trigger] self.replica_counts@[i]
                < usize::MAX
    }

    /// The replica count of each shard, in shard order.
    pub closed spec fn view(&self) -> Seq<usize> {
        self.replica_counts@
    }

    /// Fix a table: one entry per master, giving its replica count.
    pub fn new(replica_counts: Vec<usize>) -> (t: Self)
        requires
            replica_counts@.len() > 0,
            forall|i: int|
                0 <= i < replica_counts@.len() ==> #[trigger] replica_counts@[i] < usize::MAX,
        ensures
            t.wf(),
            t@ == replica_counts@,
    {
        ShardTable { replica_counts }
    }

    /// The shard that owns a key: the same shard on every call.
    pub fn shard_of(&self, key: &String) -> (s: usize)
        requires
            self.wf(),
        ensures
            s == shard_of_spec(key@, self@.len() as nat),
            s < self@.len(),
    {
        let h = key_hash(key.as_str());
        let w = #[verifier::truncate] (h as usize);
        let s = w % self.replica_counts.len();
        proof {
            assert(s == shard_of_spec(key@, self@.len() as nat));
        }
        s
    }

    /// Decide where one request goes, the balancer's draw given.
    pub fn route(&self, opcode: i32, key: &String, draw: usize) -> (d: RouteDecision)
        requires
            self.wf(),
        ensures
            d == route_spec(self@, opcode as int, key@, draw as nat),
    {
        if opcode == OP_SET_MASTER || opcode == OP_DEL_MASTER {
            RouteDecision::RejectInternal
        } else if opcode == OP_PING {
            RouteDecision::AnswerLocally
        } else {
            let shard = self.shard_of(key);
            if opcode == OP_GET {
                let choices = self.replica_counts[shard] + 1;
                let pick = draw % choices;
                if pick == choices - 1 {
                    RouteDecision::Forward { target: Target::Master { shard } }
                } else {
                    RouteDecision::Forward { target: Target::Replica { shard, index: pick } }
                }
            } else {
                RouteDecision::Forward { target: Target::Master { shard } }
            }
        }
    }

    /// Decide where one request goes, drawing the balancer's pick.  The
    /// decision is the routing rule's for some draw: which draw is chance.
    pub fn route_request(&self, opcode: i32, key: &String) -> (d: RouteDecision)
        requires
            self.wf(),
        ensures
            exists|draw: nat| d == route_spec(self@, opcode as int, key@, draw),
    {
        let draw = random_draw();
        let d = self.route(opcode, key, draw);
        proof {
            assert(d == route_spec(self@, opcode as int, key@, draw as nat));
        }
        d
    }
}

/// One uniformly drawn machine word for the load balancer.
///
/// Relies on `rand::random`: nothing can be promised of the value drawn.
#[verifier::external_body]
fn random_draw() -> usize {
    rand::random::<usize>()
}

/// Shard determinism: whatever the balancer draws, a GET for a key is
/// answered within the one shard that owns the key — by its master or by
/// one of that shard's own replicas — and every write-class request goes to
/// exactly that shard's master.
pub proof fn lemma_route_stays_on_shard(table: Seq<usize>, opcode: int, key: Seq<char>, draw: nat)
    requires
        0 < table.len() <= usize::MAX,
        opcode != OP_SET_MASTER as int && opcode != OP_DEL_MASTER as int && opcode
            != OP_PING as int,
    ensures
        ({
            let shard = shard_of_spec(key, table.len() as nat);
            match route_spec(table, opcode, key, draw) {
                RouteDecision::Forward { target } => match target {
                    Target::Master { shard: s } => s == shard,
                    Target::Replica { shard: s, index } => opcode == OP_GET as int && s == shard
                        && (index as nat) < table[shard as int],
                },
                _ => false,
            }
        }),
{
    let n = table.len() as nat;
    let shard = shard_of_spec(key, n);
    assert(shard < n);
    if opcode == OP_GET as int {
        let choices = (table[shard as int] + 1) as nat;
        let pick = draw % choices;
        assert(pick < choices);
    }
}

} // verus!

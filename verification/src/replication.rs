//! Replication fan-out decisions.  A master publishes every committed
//! mutation as an apply-from-master event on a broadcast bus; one forwarding
//! task per replica receives the events and applies them to its replica one
//! at a time, until the designated terminate event arrives.  A task that
//! falls behind the bus's buffer misses events for good: delivery is
//! at-most-once, and the process around the library runs the loop.
use vstd::prelude::*;
use crate::protocol::{Request, ReqView, OP_TERMINATE};

verus! {

/// What a forwarding task does with one event off the bus.
pub enum SyncStep {
    /// Apply this event to the replica, then wait for the next.
    Forward { req: Request },
    /// The terminate event arrived: leave the loop.
    Stop,
}

/// Decide one forwarding step: the terminate event ends the task, any other
/// event is applied to the replica exactly as it came.
pub fn sync_step(event: &Request) -> (r: SyncStep)
    ensures
        event@.opcode == OP_TERMINATE as int ==> r is Stop,
        event@.opcode != OP_TERMINATE as int ==> match r {
            SyncStep::Forward { req } => req@ == event@,
            SyncStep::Stop => false,
        },
{
    if event.opcode == OP_TERMINATE {
        SyncStep::Stop
    } else {
        SyncStep::Forward { req: event.duplicate() }
    }
}

/// The designated terminate event a master publishes at shutdown.
pub fn terminate_event() -> (r: Request)
    ensures
        r@ == (ReqView {
            opcode: OP_TERMINATE as int,
            key: Seq::<char>::empty(),
            value: Seq::<char>::empty(),
            txn_id: Option::None,
        }),
{
    Request { opcode: OP_TERMINATE, key: String::new(), value: String::new(), txn_id: None }
}

} // verus!

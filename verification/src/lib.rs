//! A small replicated key-value engine: a string store with an append-only
//! durability log, optimistic WATCH/MULTI/EXEC transactions, a pub/sub channel
//! registry, master-to-replica fan-out decisions, and a shard router.
pub mod aof;
pub mod engine;
pub mod filter;
pub mod laws;
pub mod protocol;
pub mod replication;
pub mod pubsub;
pub mod router;
pub mod smap;
pub mod store;
pub mod watch;
pub mod text;
pub mod txn;

//! A Redis-like in-memory key-value node: an expiring keyspace with
//! publish/subscribe queues, optimistic transactions, an append-only log,
//! primary/replica replication and a slot-based key router.

pub mod clock;
pub mod cmdargs;
pub mod aof;
pub mod codec;
pub mod command;
pub mod protocol;
pub mod redis;
pub mod router;
pub mod server;
pub mod wire;

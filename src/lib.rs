//! Core of a tiny-transport RPC protocol: wire framing, message kinds, flag
//! contracts, stream-id allocation, call context and the status taxonomy.
pub mod calls;
pub mod encoded;
pub mod flags;
pub mod frame;
pub mod id_pool;
pub mod lifecycle;
pub mod message;
pub mod message_type;
pub mod metadata;
pub mod odd_range_pool;
pub mod protocol;
pub mod protos;
pub mod range_pool;
pub mod status;
pub mod timeout;
pub mod wire;

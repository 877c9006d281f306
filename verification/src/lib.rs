//! A TCP-level load balancer core: backend records, a selection engine
//! (round-robin and least-connections), the per-session assignment
//! lifecycle, the byte-relay decisions of the forwarder, and the fixed
//! rejection response for the no-healthy-backend case. The sockets and
//! threads around this core live outside it and hand it plain values.

pub mod pool;
pub mod relay;
pub mod respond;
pub mod session;

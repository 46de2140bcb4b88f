//! Verified core of the p2p frame: the SN wire protocol and its extension
//! envelopes, the SN service's bookkeeping and decisions (call dedup, peer
//! cache, NAT-probe scheduling, rendezvous admission and answering, report,
//! call and query handling), the TTP tunnel caches and tunnel attachment,
//! the stack's listening configuration, listener planning and QUIC
//! connection pooling, the TLS layer's certificate checks and server
//! identity cache, and the small pieces of socket and stream state that the
//! networking layer drives.

pub mod types;
pub mod error;
pub mod endpoint;
pub mod p2p_identity;
pub mod networks;
pub mod nat_type;
pub mod time;
pub mod codec;
pub mod sn;
pub mod sockets;
pub mod stream;
pub mod ttp;
pub mod stack;
pub mod tls;

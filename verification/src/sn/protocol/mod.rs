pub mod sn;
pub mod v0;
pub mod common;
pub mod receipt;
pub mod message;
pub mod extension;
pub mod wire;
pub mod rendezvous_codec;
pub mod v0_codec;
pub mod call_codec;
pub mod query_codec;
pub mod called_codec;
pub mod report_codec;
pub mod report_resp_codec;

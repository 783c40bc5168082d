//! Verified core of the ROM-hacking container bridge.

pub mod text;
pub mod num;
pub mod protocol;
pub mod ops;
pub mod order;
pub mod targets;
pub mod hexcodec;
pub mod objdump;
pub mod edits;
pub mod dispatch;
pub mod request;
pub mod exec;
pub mod agent;
pub mod knowledge;
pub mod rag;
pub mod podman;
pub mod server;
pub mod sessions;
pub mod checksum;

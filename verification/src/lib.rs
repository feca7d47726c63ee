//! Verified core of the node speedtest engine: subscription parsing, STUN/SOCKS
//! framing, NAT classification, version comparison, calendar arithmetic, result
//! formatting and the pixel primitives of the result image.

pub mod calendar;
pub mod canvas;
pub mod cancel;
pub mod codec;
pub mod emoji;
pub mod engine;
pub mod export;
pub mod history;
pub mod host;
pub mod json;
pub mod measure;
pub mod node_test;
pub mod rlog;
pub mod socks;
pub mod stun;
pub mod sub;
pub mod tls_check;
pub mod update;
pub mod version;
pub mod text;

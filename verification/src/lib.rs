//! A FIPS mesh node for the browser: link and session protocols, their wire formats,
//! and the state machines behind the WebSocket and WebTransport carriers.

pub mod bloom;
pub mod bytes;
pub mod cipher;
pub mod crypto;
pub mod dns;
pub mod echo;
pub mod fmp;
pub mod identity;
pub mod ipv6;
pub mod mmp;
pub mod node;
pub mod noise;
pub mod noise_xk;
pub mod replay;
pub mod session;
pub mod text;
pub mod transport;
pub mod tree;
pub mod wire;

pub use crate::identity::Identity;
pub use crate::node::FipsNode;

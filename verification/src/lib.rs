//! A session-aware JSON-RPC forwarding gateway, verified.
//!
//! The crate holds the gateway's core: the JSON-RPC 2.0 envelope codec on the
//! line-oriented wire format, the per-session account registry mapping user
//! ids to backend session keys, the error taxonomy, and the pure decision
//! logic of each request flow. Socket and HTTP plumbing live outside, in an
//! unverified shell that calls into this crate with plain values.

pub mod emit;
pub mod error;
pub mod flows;
pub mod json;
pub mod num;
pub mod parse;
pub mod request;
pub mod response;
pub mod roundtrip;
pub mod session;
mod strutil;

pub use error::AppError;
pub use json::JsonValue;
pub use request::RpcRequest;
pub use response::{Post, RpcObject, RpcResponse, RpcResponseError, RpcResponsePlainMeta,
    RpcResponseResult};
pub use session::AccountList;


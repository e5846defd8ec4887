//! Server: authentication, metering and the wire protocol's messages.

pub mod auth;
pub mod dispatch;
pub mod metering;
pub mod proto;
pub mod wire;

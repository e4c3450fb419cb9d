//! LAN peer-to-peer messaging engine: the framing of the wire protocol, the
//! peer registry, the request dispatcher and the file-transfer state machines.

pub mod text;
pub mod protocol;
pub mod ids;
pub mod chat;
pub mod transfer;
pub mod request;
pub mod response;
pub mod discovery;
pub mod peer;
pub mod dispatch;
pub mod outbound;

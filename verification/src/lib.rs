//! Typed messages between two isolated execution contexts: a codec that maps
//! described message types to a flat wire form, and the request, event and
//! broadcast rules that run on top of it.

pub mod atlas_client;
pub mod atlas_server;
pub mod attrs;
pub mod client;
pub mod codec;
pub mod dotatlas;
pub mod format;
pub mod message;
pub mod payload;
pub mod port;
pub mod server;
pub mod shareable;
pub mod theorems;
pub mod wire;

//! Verified core of a local usage monitor for the Devin CLI: the protobuf
//! reader for the cached quota status, the account store, the sign-in flow's
//! pure steps, and the usage aggregation over the sessions database.
pub mod codec;
pub mod proto;
pub mod wire;
pub mod quota;
pub mod text;
pub mod store;
pub mod tokens;
pub mod auth;
pub mod pending;
pub mod callback;
pub mod session;
pub mod usage;
pub mod sort;
pub mod online;
pub mod paths;

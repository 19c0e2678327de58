//! Device coordination layer for the AVI mesh: capabilities, distributed
//! context, causal clocks, stream bookkeeping and the node runtime's decisions.
pub mod keyed;
pub mod text;
pub mod clock;
pub mod json;
pub mod path;
pub mod error;
pub mod events;
pub mod context;
pub mod messages;
pub mod runtime;
pub mod dispatch;
pub mod capability;
pub mod query;
pub mod config;
pub mod device;
pub mod protocol;
pub mod bridge;
pub mod embedded;

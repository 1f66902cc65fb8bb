//! A BGP-4 speaker library: the wire format of BGP messages, the per-neighbor
//! finite state machine, and the routing information base with best path
//! selection.
pub mod text;
pub mod wire;
pub mod types;
pub mod net;
pub mod error;
pub mod nlri;
pub mod attributes;
pub mod capabilities;
pub mod messages;
pub mod codec;
pub mod rib;
pub mod route_order;
pub mod fib;
pub mod manager;
pub mod session;
pub mod events;
pub mod handler;
pub mod fsm;
pub mod connection;
pub mod config;
pub mod speaker;

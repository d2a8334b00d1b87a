//! The core of an IRC server: the network state shared by all connections
//! and the engine that applies the clients' commands to it.

pub mod text;
pub mod modes;
pub mod rpl;
pub mod message;
pub mod channel;
pub mod buffer;
pub mod codec;
pub mod client;
pub mod lines;
pub mod reply;
pub mod wire;
pub mod auth;
pub mod table;
pub mod nicks;
pub mod state;

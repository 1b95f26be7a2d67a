//! The decisions of the server: what it accepts from the network, whom it pings, and when it
//! gives the pointer back.
pub mod address;
pub mod barriers;
pub mod client;
pub mod keepalive;
pub mod misses;
pub mod network;
pub mod ping;
pub mod session;

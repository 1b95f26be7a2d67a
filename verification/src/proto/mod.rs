//! The datagram protocol between two machines that share a keyboard and a mouse.
pub mod auth;
pub mod event;
pub mod replay;

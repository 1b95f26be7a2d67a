//! Verified core of a software KVM: the authenticated event protocol, the capture of input at
//! screen edges, its emulation, the decisions of the server, and a shared clipboard.
pub mod bytes;
pub mod capture;
pub mod clipsync;
pub mod emulation;
pub mod mac;
pub mod position;
pub mod proto;
pub mod server;
pub mod text;
pub mod utf8;
pub mod version;

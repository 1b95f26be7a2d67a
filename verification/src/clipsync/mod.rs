//! Sharing the clipboard: text at once, files on demand.
pub mod clipboard;
pub mod data_object;
pub mod data_server;
pub mod descriptor;
pub mod frame;
pub mod handshake;
pub mod hash;
pub mod item;
pub mod manifest;
pub mod order;
pub mod relpath;
pub mod split;
pub mod stream;
pub mod sync;
pub mod uri_list;
pub mod walk;

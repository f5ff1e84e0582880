//! Verified core of a zero-config LAN file-sharing server.
use vstd::prelude::*;

pub mod conn;
pub mod digest;
pub mod dir_cache;
pub mod error;
pub mod gui;
pub mod mdns;
pub mod mime;
pub mod paths;
pub mod num;
pub mod poll;
pub mod qr;
pub mod range;
pub mod reader;
pub mod routes;
pub mod sandbox;
pub mod search;
pub mod stats;
pub mod table;
pub mod text;
pub mod thumb;
pub mod tui;
pub mod watcher;
pub mod ws;

verus! {

} // verus!

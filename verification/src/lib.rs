//! Verified building blocks of the BitcoinMW networking stack: error kinds,
//! binary serialization, text helpers, WebSocket framing, HTTP parsing and
//! chunked bodies, the read slabs and write bookkeeping of the event
//! handler, and the generator of trait and macro documentation.
use vstd::prelude::*;

pub mod cache;
pub mod chunked;
pub mod config;
pub mod document;
pub mod error;
pub mod evh;
pub mod http;
pub mod ser;
pub mod slabs;
pub mod text;
pub mod websocket;

verus! {

} // verus!

//! Moderation-assist library for a group-chat platform.
//!
//! The library correlates messages seen in a main discussion channel with
//! later references to them (a forwarded copy), drives the moderation
//! workflow that turns such a reference into a public off-topic notice,
//! and owns the codec for the opaque payloads carried by interactive
//! controls.  All platform I/O stays outside: the workflow consumes plain
//! events and returns the outbound actions to perform.

use vstd::prelude::*;

pub mod admin;
pub mod api;
pub mod cache;
pub mod callback;
mod config;
pub mod digits;
pub mod idbytes;

pub use config::Config;

verus! {

} // verus!

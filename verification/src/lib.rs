//! Tracking and typed access to the "global" capabilities a display server
//! advertises through its registry.
//!
//! Globals come in two kinds: "single" globals, capabilities the server
//! announces once per session, and "multi" globals, resources that may have
//! several simultaneous instances, created and removed over the connection's
//! lifetime. An [`Environment`](environment::Environment) holds one slot per
//! declared interface, routes registry notifications to the matching slot,
//! and offers typed accessors over the bound instances.

use vstd::prelude::*;

pub mod environment;
pub mod handlers;
pub mod init;
pub mod laws;

verus! {

/// A locally bound global: the id under which the server advertised it and
/// the protocol version the binding was made at.
#[derive(Clone, Copy, PartialEq, Eq, Structural, Debug)]
pub struct BoundInstance {
    pub id: u32,
    pub version: u32,
}

} // verus!

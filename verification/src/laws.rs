//! What the operations of the library promise.
//!
//! Each law speaks of calls: of what goes into them and what comes out.

pub mod basics;
pub mod content;
pub mod depot;
pub mod service;
pub mod session;
pub mod told;

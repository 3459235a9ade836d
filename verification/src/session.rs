//! What a logged-on session knows.

use vstd::prelude::*;

verus! {

/// The state of a session with a CM.
#[derive(Debug, Clone)]
pub struct SessionState {
    pub steam_id: u64,
    pub session_id: i32,
    pub cell_id: u32,
    pub heartbeat_seconds: i32,
    /// The session belongs to an account, not to the anonymous user.
    pub authenticated: bool,
    /// The apps that a free license was granted for.
    pub licensed_appids: Vec<u32>,
}

} // verus!

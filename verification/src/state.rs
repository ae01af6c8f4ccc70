//! What the actor keeps between connections.
use vstd::prelude::*;

verus! {

/// The state of the actor.
pub struct UiState {
    /// Id of the listener on which browsers connect.
    pub listener_id: String,
    /// Address of the tickets API.
    pub api_addr: String,
    /// Bearer token that the tickets API asks for.
    pub api_token: String,
}

impl Clone for UiState {
    fn clone(&self) -> (r: UiState)
        ensures
            r == *self,
    {
        UiState {
            listener_id: self.listener_id.clone(),
            api_addr: self.api_addr.clone(),
            api_token: self.api_token.clone(),
        }
    }
}

} // verus!

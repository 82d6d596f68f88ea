use vstd::prelude::*;

verus! {

/// What can go wrong with one client of the server.
#[derive(Debug)]
pub enum ServerError {
    NoConnection,
    Disconnected,
    Other(String),
}

} // verus!

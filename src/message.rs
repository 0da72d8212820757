//! Messages of the queue demonstration program.
use vstd::prelude::*;

verus! {

/// A request to the worker of the demonstration program.
#[derive(Debug, Clone, PartialEq, Eq, Structural)]
pub enum Message {
    Update(i32),
    Clear,
    Stop,
}

impl Message {
    /// Whether this is an `Update`, the kind of request that a newer one may
    /// replace while it is still queued.
    pub fn is_update(&self) -> (r: bool)
        ensures
            r == (self is Update),
    {
        match self {
            Message::Update(_) => true,
            _ => false,
        }
    }
}

} // verus!

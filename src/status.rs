//! What one round of updating a connection reports.
use vstd::prelude::*;

verus! {

/// Whether an update queued a new incoming message.
#[derive(Clone, Copy, Debug)]
pub struct UpdateStatus {
    new_message: bool,
}

impl UpdateStatus {
    /// Whether a new message was queued.
    pub closed spec fn is_new(&self) -> bool {
        self.new_message
    }

    pub fn new(new_message: bool) -> (r: Self)
        ensures
            r.is_new() == new_message,
    {
        UpdateStatus { new_message }
    }

    /// Whether a new message was queued.
    pub fn new_msg(&self) -> (r: bool)
        ensures
            r == self.is_new(),
    {
        self.new_message
    }
}

/// Whether an update of a client queued a new incoming message.
#[derive(Clone, Copy, Debug)]
pub struct UpdateClientStatus {
    new_message: bool,
}

impl UpdateClientStatus {
    /// Whether a new message was queued.
    pub closed spec fn is_new(&self) -> bool {
        self.new_message
    }

    pub fn new(new_message: bool) -> (r: Self)
        ensures
            r.is_new() == new_message,
    {
        UpdateClientStatus { new_message }
    }

    /// Whether a new message was queued.
    pub fn new_msg(&self) -> (r: bool)
        ensures
            r == self.is_new(),
    {
        self.new_message
    }
}

} // verus!

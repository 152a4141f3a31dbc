//! Identifiers that the server hands out to connections, in order.
use vstd::prelude::*;

verus! {

/// The identifier of a sender connection.
#[derive(Debug, Clone, Copy, PartialEq, Eq, PartialOrd, Ord, Hash, Structural)]
pub struct SenderId(pub u32);

/// The identifier of a viewer connection.
#[derive(Debug, Clone, Copy, PartialEq, Eq, PartialOrd, Ord, Hash, Structural)]
pub struct ViewerId(pub u32);

/// Hands out sender and viewer identifiers, each counting up from zero.
#[derive(Debug)]
pub struct IdGenerator {
    current_sender_id: u32,
    current_viewer_id: u32,
}

impl IdGenerator {
    /// The next sender identifier to hand out.
    pub closed spec fn next_sender(&self) -> int {
        self.current_sender_id as int
    }

    /// The next viewer identifier to hand out.
    pub closed spec fn next_viewer(&self) -> int {
        self.current_viewer_id as int
    }

    /// A generator that starts both counts at zero.
    pub fn new() -> (r: Self)
        ensures
            r.next_sender() == 0,
            r.next_viewer() == 0,
    {
        IdGenerator { current_sender_id: 0, current_viewer_id: 0 }
    }

    /// Hands out the next sender identifier.
    pub fn next_sender_id(&mut self) -> (r: SenderId)
        requires
            old(self).next_sender() < u32::MAX,
        ensures
            r.0 == old(self).next_sender(),
            final(self).next_sender() == old(self).next_sender() + 1,
            final(self).next_viewer() == old(self).next_viewer(),
    {
        let next_id = SenderId(self.current_sender_id);
        self.current_sender_id = self.current_sender_id + 1;
        next_id
    }

    /// Hands out the next viewer identifier.
    pub fn next_viewer_id(&mut self) -> (r: ViewerId)
        requires
            old(self).next_viewer() < u32::MAX,
        ensures
            r.0 == old(self).next_viewer(),
            final(self).next_viewer() == old(self).next_viewer() + 1,
            final(self).next_sender() == old(self).next_sender(),
    {
        let next_id = ViewerId(self.current_viewer_id);
        self.current_viewer_id = self.current_viewer_id + 1;
        next_id
    }
}

impl Default for IdGenerator {
    fn default() -> (r: Self)
        ensures
            r.next_sender() == 0,
            r.next_viewer() == 0,
    {
        Self::new()
    }
}

} // verus!

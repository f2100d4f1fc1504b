//! The identity of one physical connection.

use vstd::prelude::*;

verus! {

/// Identifies one physical connection by its unique 128-bit connection id.
///
/// Two handles are equal exactly when they carry the same connection id, so a
/// copy of a handle still names the same connection, while a handle made with
/// a fresh id names another one.
#[derive(Clone, Copy, Debug, PartialEq, Eq, Structural, Hash)]
pub struct ConnectionHandle {
    id: u128,
}

impl View for ConnectionHandle {
    type V = u128;

    closed spec fn view(&self) -> u128 {
        self.id
    }
}

impl ConnectionHandle {
    /// The handle of the connection with the given id.
    pub fn new(id: u128) -> (h: ConnectionHandle)
        ensures
            h@ == id,
    {
        ConnectionHandle { id }
    }

    /// The connection id.
    pub fn id(&self) -> (id: u128)
        ensures
            id == self@,
    {
        self.id
    }

    /// Whether both handles name the same physical connection.
    pub fn same_connection(&self, other: &ConnectionHandle) -> (same: bool)
        ensures
            same == (self@ == other@),
            same == (*self == *other),
    {
        self.id == other.id
    }
}

} // verus!

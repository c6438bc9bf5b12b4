//! What the calls of an application can fail with.

use vstd::prelude::*;
use crate::types::Dual;

verus! {

/// An error of the connection table or of a stream.
#[derive(Debug, Clone, Copy, PartialEq, Eq, Structural)]
pub enum Error {
    /// The port has no backlog any more.
    PortClosed(u16),
    /// The port is taken.
    PortInUse(u16),
    /// The stream with this local end is no longer in the table.
    StreamClosed(Dual),
    /// The connection was reset.
    ConnectionReset,
    /// The local side of the stream was closed before.
    NotConnected,
    /// The peer refused the connection.
    ConnectionRefused,
}

} // verus!

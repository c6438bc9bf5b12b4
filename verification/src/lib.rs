//! A user-space TCP: the per-connection state machine, the segment codec it
//! speaks through, and the connection table that routes segments to
//! connections.
//!
//! The library is free of I/O and of clocks. Frames come in as byte slices and
//! go out as byte vectors, and every entry point takes the current time in
//! milliseconds as an argument.
//!
//! The executable code is in `seq`, `types`, `codec`, `tcb`, `tick`,
//! `inbound`, `manager` and `stack`. What it computes is stated in `model`,
//! `transitions` and `table`, and what holds of it is proved in `queue`,
//! `wellformed`, `laws` and `tablelaws`.

pub mod seq;
pub mod types;
pub mod err;
pub mod codec;
pub mod model;
pub mod transitions;
pub mod queue;
pub mod wellformed;
pub mod laws;
pub mod tcb;
pub mod tick;
pub mod inbound;
pub mod table;
pub mod tablelaws;
pub mod manager;
pub mod stack;

pub use crate::codec::{write_ack, write_data, write_reset, write_synack, Header, TcpOption};
pub use crate::err::Error;
pub use crate::manager::{EstabElement, EstabEntry, Manager, StreamEntry};
pub use crate::seq::{is_between_wrapped, wrapping_lt};
pub use crate::stack::{NetStack, TcpListener, TcpStream};
pub use crate::table::{Ended, Signal};
pub use crate::tcb::{Action, TCB};
pub use crate::types::{Dual, Kind, Quad, RecvSpace, Segment, SendSpace, State};

//! The connection table as mathematics: the ports bound, the connections
//! that shake hands, the connections established and the backlogs of ports,
//! with the functions that the calls of an application and the events of the
//! network apply to them.

use vstd::prelude::*;
use crate::codec::{reset_frame, Header};
use crate::err::Error;
use crate::model::{ActionModel, TcbModel};
use crate::types::{Dual, Quad, State};

verus! {

/// The port below the first one that an active open takes when no port is
/// bound.
pub const EPHEMERAL_FLOOR: u16 = 4000;

/// A connection in the table, under the pair of ends that names it.
pub struct Entry {
    pub quad: Quad,
    pub tcb: TcbModel,
}

/// The connections of a port that are established and not yet accepted,
/// and what an active open from the port has failed with, if it has.
pub struct Backlog {
    pub port: u16,
    pub elts: Seq<Quad>,
    pub failure: Option<Error>,
}

/// A connection that the table has destroyed at a tick.
#[derive(Debug, Clone, Copy, PartialEq, Eq, Structural)]
pub struct Ended {
    pub quad: Quad,
    /// Whether the connection was given up, so that those who wait on it are
    /// to see a reset.
    pub reset: bool,
    /// Whether the connection was opened actively.
    pub active: bool,
}

/// The connection table.
pub struct ManagerModel {
    /// The counter that seeds initial sequence numbers.
    pub iss: u32,
    /// The ports bound.
    pub bounded: Seq<u16>,
    /// The connections that shake hands.
    pub pending: Seq<Entry>,
    /// The backlogs, one for each port that was bound or opened from.
    pub established: Seq<Backlog>,
    /// The connections established.
    pub streams: Seq<Entry>,
}

/// What the one who drives the table is to signal after an inbound segment.
#[derive(Debug, Clone, Copy, PartialEq, Eq, Structural)]
pub enum Signal {
    /// Nothing.
    Noop,
    /// A connection on the port of the segment is established: wake who
    /// accepts on that port.
    Established,
    /// The connection was reset or refused: wake all who wait on it, with
    /// an error.
    Reset,
    /// The connection has ended in order.
    Deleted,
    /// Wake those that wait on the connection to read, to write or for the
    /// close to end.
    Wakeup { wake_up_reader: bool, wake_up_writer: bool, wake_up_closer: bool },
}

/// The index of the first `k` among `keys`, or their number if there is
/// none.
pub open spec fn first_at<K>(keys: Seq<K>, k: K) -> int
    decreases keys.len(),
{
    if keys.len() == 0 {
        0
    } else if keys[0] == k {
        0
    } else {
        1 + first_at(keys.drop_first(), k)
    }
}

/// Whether no key occurs twice.
pub open spec fn distinct<K>(keys: Seq<K>) -> bool {
    forall|i: int, j: int| 0 <= i < j < keys.len() ==> keys[i] != keys[j]
}

/// The names of the connections of a list.
pub open spec fn quads(s: Seq<Entry>) -> Seq<Quad> {
    Seq::new(s.len(), |i: int| s[i].quad)
}

/// The ports of a list of backlogs.
pub open spec fn ports(s: Seq<Backlog>) -> Seq<u16> {
    Seq::new(s.len(), |i: int| s[i].port)
}

/// The names of the connections that were destroyed.
pub open spec fn ended_quads(d: Seq<Ended>) -> Seq<Quad> {
    Seq::new(d.len(), |i: int| d[i].quad)
}

/// The greatest of some ports, or -1 if there are none.
pub open spec fn top(s: Seq<u16>) -> int
    decreases s.len(),
{
    if s.len() == 0 {
        -1
    } else if top(s.drop_last()) >= s.last() {
        top(s.drop_last())
    } else {
        s.last() as int
    }
}

/// What the table does to the signal of a connection's action.
pub open spec fn signal_of(action: ActionModel) -> Signal {
    match action {
        ActionModel::Noop => Signal::Noop,
        ActionModel::AddToPending(_) => Signal::Noop,
        ActionModel::RemoveFromPending => Signal::Noop,
        ActionModel::IsEstablished => Signal::Established,
        ActionModel::Reset => Signal::Reset,
        ActionModel::DeleteTCB => Signal::Deleted,
        ActionModel::Wakeup { wake_up_reader, wake_up_writer, wake_up_closer } => Signal::Wakeup {
            wake_up_reader,
            wake_up_writer,
            wake_up_closer,
        },
        ActionModel::ConnectionRefused => Signal::Reset,
    }
}

/// A list of connections without the one named `quad`, if there is one.
pub open spec fn without(s: Seq<Entry>, quad: Quad) -> Seq<Entry> {
    let at = first_at(quads(s), quad);
    if at < s.len() {
        s.remove(at)
    } else {
        s
    }
}

/// A list of backlogs in which `quad` waits on the port `port`, if that port
/// has a backlog.
pub open spec fn enqueued(s: Seq<Backlog>, port: u16, quad: Quad) -> Seq<Backlog> {
    let at = first_at(ports(s), port);
    if at < s.len() {
        s.update(at, Backlog { elts: s[at].elts.push(quad), ..s[at] })
    } else {
        s
    }
}

/// A list of backlogs in which `port` has an empty backlog without failure,
/// in place of the one it had, if it had one.
pub open spec fn reopened(s: Seq<Backlog>, port: u16) -> Seq<Backlog> {
    let at = first_at(ports(s), port);
    let fresh = Backlog { port, elts: Seq::empty(), failure: None };
    if at < s.len() {
        s.update(at, fresh)
    } else {
        s.push(fresh)
    }
}

/// A list of backlogs in which the active open from `port` has failed with
/// `error`, if that port has a backlog.
pub open spec fn failed(s: Seq<Backlog>, port: u16, error: Error) -> Seq<Backlog> {
    let at = first_at(ports(s), port);
    if at < s.len() {
        s.update(at, Backlog { failure: Some(error), ..s[at] })
    } else {
        s
    }
}

/// A list of backlogs in which every active open among the connections
/// `gone` has failed with a reset.
pub open spec fn given_up(s: Seq<Backlog>, gone: Seq<Ended>) -> Seq<Backlog>
    decreases gone.len(),
{
    if gone.len() == 0 {
        s
    } else if gone.last().active {
        failed(given_up(s, gone.drop_last()), gone.last().quad.src.port, Error::ConnectionReset)
    } else {
        given_up(s, gone.drop_last())
    }
}

/// The outcome of ticking the connections of a list.
pub struct Ticked {
    /// The connections that stay, in order.
    pub kept: Seq<Entry>,
    /// The connections that are destroyed, in order.
    pub deleted: Seq<Ended>,
    /// The frames to transmit, in order.
    pub frames: Seq<Seq<u8>>,
}

/// Ticks the connections of a list one after the other.
pub open spec fn tick_entries(s: Seq<Entry>, now: u64) -> Ticked
    decreases s.len(),
{
    if s.len() == 0 {
        Ticked { kept: Seq::empty(), deleted: Seq::empty(), frames: Seq::empty() }
    } else {
        let t = s[0].tcb.on_tick(now);
        let rest = tick_entries(s.drop_first(), now);
        if t.delete {
            Ticked {
                kept: rest.kept,
                deleted: seq![
                    Ended {
                        quad: s[0].quad,
                        reset: t.tcb.reset,
                        active: t.tcb.kind == crate::types::Kind::Active,
                    },
                ] + rest.deleted,
                frames: t.frames + rest.frames,
            }
        } else {
            Ticked {
                kept: seq![Entry { quad: s[0].quad, tcb: t.tcb }] + rest.kept,
                deleted: rest.deleted,
                frames: t.frames + rest.frames,
            }
        }
    }
}

/// The outcome of an inbound segment for the table.
pub struct Routed {
    pub table: ManagerModel,
    pub signal: Signal,
    /// The frames to transmit, in order.
    pub frames: Seq<Seq<u8>>,
}

impl ManagerModel {
    /// The table with nothing in it.
    pub open spec fn empty() -> ManagerModel {
        ManagerModel {
            iss: 0,
            bounded: Seq::empty(),
            pending: Seq::empty(),
            established: Seq::empty(),
            streams: Seq::empty(),
        }
    }

    /// The invariant of the table: no port is bound twice or has two
    /// backlogs, every bound port has a backlog, every pair of ends names at
    /// most one connection over both lists, and every connection is well
    /// formed, bears its name and has left the LISTEN state.
    pub open spec fn wf(self) -> bool {
        &&& distinct(self.bounded)
        &&& distinct(ports(self.established))
        &&& forall|i: int|
            0 <= i < self.bounded.len() ==> ports(self.established).contains(#[trigger] self.bounded[i])
        &&& distinct(quads(self.pending))
        &&& distinct(quads(self.streams))
        &&& forall|i: int, j: int|
            0 <= i < self.pending.len() && 0 <= j < self.streams.len() ==> (#[trigger] self.pending[i]).quad
                != (#[trigger] self.streams[j]).quad
        &&& forall|i: int| 0 <= i < self.pending.len() ==> Self::entry_ok(#[trigger] self.pending[i])
        &&& forall|i: int| 0 <= i < self.streams.len() ==> Self::entry_ok(#[trigger] self.streams[i])
    }

    /// The invariant of one connection in the table.
    pub open spec fn entry_ok(e: Entry) -> bool {
        e.tcb.wf() && e.tcb.quad == e.quad && e.tcb.state != State::Listen
    }

    /// Whether `port` is bound.
    pub open spec fn is_bound(self, port: u16) -> bool {
        first_at(self.bounded, port) < self.bounded.len()
    }

    /// Whether a connection named `quad` is in the table.
    pub open spec fn has_connection(self, quad: Quad) -> bool {
        first_at(quads(self.streams), quad) < self.streams.len() || first_at(
            quads(self.pending),
            quad,
        ) < self.pending.len()
    }

    /// The table after a bind of `port`. A port that is bound stays as it
    /// is. Any other port is bound and gets an empty backlog, in place of
    /// one that an earlier listener or open has left.
    pub open spec fn bind(self, port: u16) -> ManagerModel {
        if self.is_bound(port) {
            self
        } else {
            ManagerModel {
                bounded: self.bounded.push(port),
                established: reopened(self.established, port),
                ..self
            }
        }
    }

    /// The table after the listener on `port` has gone: the port is not
    /// bound any more, its backlog stays.
    pub open spec fn unbind(self, port: u16) -> ManagerModel {
        if self.is_bound(port) {
            ManagerModel { bounded: self.bounded.remove(first_at(self.bounded, port)), ..self }
        } else {
            self
        }
    }

    /// The local port that the next active open takes: one above the
    /// greatest port bound, or above the floor if none is bound.
    pub open spec fn next_port(self) -> int {
        if self.bounded.len() == 0 {
            EPHEMERAL_FLOOR + 1
        } else {
            top(self.bounded) + 1
        }
    }

    /// The name of the connection that the next active open from `local`
    /// to `remote` makes.
    pub open spec fn next_quad(self, local: u32, remote: Dual) -> Quad {
        Quad { src: Dual { ipv4: local, port: self.next_port() as u16 }, dst: remote }
    }

    /// Whether an active open from `local` to `remote` can be made: a port
    /// is left, and the connection it names is not in the table.
    pub open spec fn can_connect(self, local: u32, remote: Dual) -> bool {
        self.next_port() <= 65535 && !self.has_connection(self.next_quad(local, remote))
    }

    /// The table after an active open from `local` to `remote`: the local
    /// port is bound and gets an empty backlog, and a connection in the
    /// SYN-SENT state is pending.
    pub open spec fn connect(self, local: u32, remote: Dual) -> ManagerModel {
        let quad = self.next_quad(local, remote);
        let port = quad.src.port;
        ManagerModel {
            bounded: self.bounded.push(port),
            pending: self.pending.push(Entry { quad, tcb: TcbModel::syn_sent(quad, self.iss) }),
            established: reopened(self.established, port),
            ..self
        }
    }

    /// What an accept on `port` returns: an error if the port has no
    /// backlog, nothing if the backlog is empty, and else the connection that
    /// joined it last.
    pub open spec fn accepted(self, port: u16) -> Result<Option<Quad>, Error> {
        let at = first_at(ports(self.established), port);
        if at >= self.established.len() {
            Err(Error::PortClosed(port))
        } else if self.established[at].elts.len() == 0 {
            Ok(None)
        } else {
            Ok(Some(self.established[at].elts.last()))
        }
    }

    /// What an active open from `port` has come to: an error if the port has
    /// no backlog, the connection if it is established, the failure if the
    /// peer refused it or it was given up, and nothing while it is pending.
    pub open spec fn opened(self, port: u16) -> Result<Option<Quad>, Error> {
        let at = first_at(ports(self.established), port);
        if at >= self.established.len() {
            Err(Error::PortClosed(port))
        } else if self.established[at].elts.len() > 0 {
            Ok(Some(self.established[at].elts.last()))
        } else {
            match self.established[at].failure {
                Some(e) => Err(e),
                None => Ok(None),
            }
        }
    }

    /// The table after an accept on `port`.
    pub open spec fn accept(self, port: u16) -> ManagerModel {
        let at = first_at(ports(self.established), port);
        if at < self.established.len() && self.established[at].elts.len() > 0 {
            ManagerModel {
                established: self.established.update(
                    at,
                    Backlog {
                        elts: self.established[at].elts.drop_last(),
                        ..self.established[at]
                    },
                ),
                ..self
            }
        } else {
            self
        }
    }

    /// The table after the streams were ticked and then the pending
    /// connections. An active open that was given up is recorded as failed
    /// with a reset on the backlog of its port.
    pub open spec fn on_tick(self, now: u64) -> ManagerModel {
        ManagerModel {
            streams: tick_entries(self.streams, now).kept,
            pending: tick_entries(self.pending, now).kept,
            established: given_up(self.established, tick_entries(self.pending, now).deleted),
            ..self
        }
    }

    /// The table after the action of the connection named `quad` was
    /// applied. A handshake that the peer has reset is recorded as refused on
    /// the backlog of its port.
    pub open spec fn apply(self, quad: Quad, action: ActionModel) -> ManagerModel {
        match action {
            ActionModel::Noop => self,
            ActionModel::AddToPending(t) => ManagerModel {
                pending: self.pending.push(Entry { quad, tcb: t }),
                ..self
            },
            ActionModel::RemoveFromPending => ManagerModel {
                pending: without(self.pending, quad),
                ..self
            },
            ActionModel::IsEstablished => {
                let at = first_at(quads(self.pending), quad);
                if at < self.pending.len() {
                    ManagerModel {
                        pending: self.pending.remove(at),
                        streams: self.streams.push(self.pending[at]),
                        established: enqueued(self.established, quad.src.port, quad),
                        ..self
                    }
                } else {
                    self
                }
            },
            ActionModel::Reset => ManagerModel {
                streams: without(self.streams, quad),
                pending: without(self.pending, quad),
                established: if first_at(quads(self.pending), quad) < self.pending.len() {
                    failed(self.established, quad.src.port, Error::ConnectionRefused)
                } else {
                    self.established
                },
                ..self
            },
            ActionModel::DeleteTCB => ManagerModel { streams: without(self.streams, quad), ..self },
            ActionModel::Wakeup { .. } => self,
            ActionModel::ConnectionRefused => ManagerModel {
                pending: without(self.pending, quad),
                established: failed(self.established, quad.src.port, Error::ConnectionRefused),
                ..self
            },
        }
    }

    /// What an inbound segment does to the table. The connection it belongs
    /// to is the one named by its destination and source; an established one
    /// comes before a pending one. Without either, a bound port answers as a
    /// connection in the LISTEN state would, and any other port answers
    /// every segment but a reset with a reset.
    pub open spec fn on_segment(self, h: Header, data: Seq<u8>, now: u64) -> Routed {
        let quad = Quad { src: h.destination, dst: h.source };
        let s = first_at(quads(self.streams), quad);
        let p = first_at(quads(self.pending), quad);
        if s < self.streams.len() {
            let step = self.streams[s].tcb.on_segment(h, data, now);
            let t = ManagerModel {
                streams: self.streams.update(s, Entry { quad, tcb: step.tcb }),
                ..self
            };
            Routed { table: t.apply(quad, step.action), signal: signal_of(step.action), frames: step.frames }
        } else if p < self.pending.len() {
            let step = self.pending[p].tcb.on_segment(h, data, now);
            let t = ManagerModel {
                pending: self.pending.update(p, Entry { quad, tcb: step.tcb }),
                ..self
            };
            Routed { table: t.apply(quad, step.action), signal: signal_of(step.action), frames: step.frames }
        } else if self.is_bound(quad.src.port) {
            let step = TcbModel::listen(quad, self.iss).on_segment(h, data, now);
            Routed {
                table: self.apply(quad, step.action),
                signal: signal_of(step.action),
                frames: step.frames,
            }
        } else if h.rst {
            Routed { table: self, signal: Signal::Noop, frames: Seq::empty() }
        } else {
            Routed {
                table: self,
                signal: Signal::Noop,
                frames: seq![reset_frame(h, data.len() as int)],
            }
        }
    }
}

impl ManagerModel {
    /// The established connection named `quad`, if there is one.
    pub open spec fn stream(self, quad: Quad) -> Option<TcbModel> {
        let at = first_at(quads(self.streams), quad);
        if at < self.streams.len() {
            Some(self.streams[at].tcb)
        } else {
            None
        }
    }

    /// The table in which the established connection named `quad` is `tcb`.
    pub open spec fn with_stream(self, quad: Quad, tcb: TcbModel) -> ManagerModel {
        ManagerModel {
            streams: self.streams.update(first_at(quads(self.streams), quad), Entry { quad, tcb }),
            ..self
        }
    }
}

/// The name of the connection that a segment with header `h` belongs to:
/// its destination is the local end.
pub open spec fn quad_of(h: Header) -> Quad {
    Quad { src: h.destination, dst: h.source }
}

/// The outcome of an inbound frame for the table.
pub struct Received {
    pub table: ManagerModel,
    /// The connection that the frame belongs to and what is to be signalled
    /// for it; nothing for a frame that was dropped.
    pub notice: Option<(Quad, Signal)>,
    /// The frames to transmit, in order.
    pub frames: Seq<Seq<u8>>,
}

impl ManagerModel {
    /// What an inbound frame does to the table: a frame longer than a
    /// datagram can be, or one that does not decode, is dropped; the segment
    /// of any other is routed.
    pub open spec fn on_frame(self, frame: Seq<u8>, now: u64) -> Received {
        if frame.len() > 65535 {
            Received { table: self, notice: None, frames: Seq::empty() }
        } else {
            match crate::codec::decoded(frame) {
                None => Received { table: self, notice: None, frames: Seq::empty() },
                Some((h, offset)) => {
                    let r = self.on_segment(h, frame.subrange(offset as int, frame.len() as int), now);
                    Received { table: r.table, notice: Some((quad_of(h), r.signal)), frames: r.frames }
                },
            }
        }
    }
}

} // verus!

//! The handles of an application: the stack, the listener on a port and the
//! stream of a connection. No call blocks: where the application would
//! have to wait, the call says so and changes nothing, and the one who
//! drives the table tells from its signals when to call again.

use vstd::prelude::*;
use crate::err::Error;
use crate::manager::{entries_of, find_entry, Manager};
use crate::tablelaws::{lemma_first_at, lemma_replace_wf};
use crate::model::{least, TcbModel};
use crate::table::{first_at, quads, Entry, ManagerModel};
use crate::types::{Dual, Quad, State};
use crate::wellformed::{lemma_close_wf, lemma_recv_wf, lemma_write_wf};

verus! {

/// The stack: a local address and the connection table.
#[derive(Debug)]
pub struct NetStack {
    /// The address of the interface, as its big-endian number.
    pub addr: u32,
    pub manager: Manager,
}

/// A listener on a port.
#[derive(Debug, Clone, Copy, PartialEq, Eq, Structural)]
pub struct TcpListener {
    pub port: u16,
}

/// A stream: the handle of one established connection.
#[derive(Debug, Clone, Copy, PartialEq, Eq, Structural)]
pub struct TcpStream {
    pub quad: Quad,
    /// Whether the local side was closed through this handle.
    pub closed: bool,
    /// Whether the holder was told that the connection was reset.
    pub reset: bool,
}

impl NetStack {
    /// The invariant of the stack.
    pub open spec fn wf(&self) -> bool {
        self.manager.wf()
    }

    /// A stack at the address `addr` with an empty table.
    pub fn new(addr: u32) -> (stack: NetStack)
        ensures
            stack.addr == addr,
            stack.manager@ == ManagerModel::empty(),
            stack.wf(),
    {
        NetStack { addr, manager: Manager::new() }
    }

    /// Binds `port` and returns the listener on it. Fails if the port is
    /// bound.
    pub fn bind(&mut self, port: u16) -> (r: Result<TcpListener, Error>)
        requires
            old(self).wf(),
        ensures
            final(self).addr == old(self).addr,
            final(self).manager@ == old(self).manager@.bind(port),
            r == (if old(self).manager@.is_bound(port) {
                Err::<TcpListener, Error>(Error::PortInUse(port))
            } else {
                Ok(TcpListener { port })
            }),
            final(self).wf(),
    {
        match self.manager.bind(port) {
            Ok(()) => Ok(TcpListener { port }),
            Err(e) => Err(e),
        }
    }

    /// Starts an active open to the port `port` at the address `addr`.
    /// Returns the listener on the local port that was taken: its `opened`
    /// says what the open has come to. Fails, and changes nothing, if no
    /// local port is left or the connection exists.
    pub fn connect(&mut self, addr: u32, port: u16) -> (r: Result<TcpListener, Error>)
        requires
            old(self).wf(),
        ensures
            final(self).addr == old(self).addr,
            ({
                let t = old(self).manager@;
                let remote = Dual { ipv4: addr, port };
                if t.can_connect(old(self).addr, remote) {
                    r == Ok::<TcpListener, Error>(TcpListener { port: t.next_port() as u16 })
                        && final(self).manager@ == t.connect(old(self).addr, remote)
                } else {
                    r is Err && final(self).manager@ == t
                }
            }),
            final(self).wf(),
    {
        match self.manager.connect(self.addr, Dual { ipv4: addr, port }) {
            Ok(quad) => Ok(TcpListener { port: quad.src.port }),
            Err(e) => Err(e),
        }
    }
}

impl TcpListener {
    /// The port listened on.
    pub fn port(&self) -> (p: u16)
        ensures
            p == self.port,
    {
        self.port
    }

    /// Takes a connection from the backlog of the port. Returns nothing if
    /// none waits, and fails if the port has no backlog.
    pub fn accept(&self, stack: &mut NetStack) -> (r: Result<Option<TcpStream>, Error>)
        requires
            old(stack).wf(),
        ensures
            final(stack).addr == old(stack).addr,
            final(stack).manager@ == old(stack).manager@.accept(self.port),
            r == (match old(stack).manager@.accepted(self.port) {
                Ok(Some(quad)) => Ok::<Option<TcpStream>, Error>(
                    Some(TcpStream { quad, closed: false, reset: false }),
                ),
                Ok(None) => Ok(None),
                Err(e) => Err(e),
            }),
            final(stack).wf(),
    {
        match stack.manager.accept(self.port) {
            Ok(Some(quad)) => Ok(Some(TcpStream { quad, closed: false, reset: false })),
            Ok(None) => Ok(None),
            Err(e) => Err(e),
        }
    }

    /// Says what the active open that took this port has come to, and takes
    /// the stream if the connection is established. Returns the stream,
    /// nothing while the handshake goes on, `ConnectionRefused` if the peer
    /// reset the handshake, `ConnectionReset` if the open was given up after
    /// its SYN went unanswered for too long, and `PortClosed` if the port has
    /// no backlog.
    pub fn opened(&self, stack: &mut NetStack) -> (r: Result<Option<TcpStream>, Error>)
        requires
            old(stack).wf(),
        ensures
            final(stack).addr == old(stack).addr,
            final(stack).manager@ == old(stack).manager@.accept(self.port),
            r == (match old(stack).manager@.opened(self.port) {
                Ok(Some(quad)) => Ok::<Option<TcpStream>, Error>(
                    Some(TcpStream { quad, closed: false, reset: false }),
                ),
                Ok(None) => Ok(None),
                Err(e) => Err(e),
            }),
            final(stack).wf(),
    {
        match stack.manager.opened(self.port) {
            Ok(Some(quad)) => Ok(Some(TcpStream { quad, closed: false, reset: false })),
            Ok(None) => Ok(None),
            Err(e) => Err(e),
        }
    }

    /// Gives the port up: it is not bound any more.
    pub fn release(self, stack: &mut NetStack)
        requires
            old(stack).wf(),
        ensures
            final(stack).addr == old(stack).addr,
            final(stack).manager@ == old(stack).manager@.unbind(self.port),
            final(stack).wf(),
    {
        stack.manager.unbind(self.port);
    }
}

impl Manager {
    /// Takes at most `max` bytes that the connection named `quad` has
    /// received. Returns nothing if no byte waits and the peer has not
    /// closed; an empty read means that the peer has closed and all was
    /// read.
    pub fn read(&mut self, quad: Quad, max: usize) -> (r: Result<Option<Vec<u8>>, Error>)
        requires
            old(self).wf(),
        ensures
            match old(self)@.stream(quad) {
                None => r == Err::<Option<Vec<u8>>, Error>(Error::StreamClosed(quad.src))
                    && final(self)@ == old(self)@,
                Some(t) => if t.incoming.len() == 0 && !t.read_closed {
                    r == Ok::<Option<Vec<u8>>, Error>(None) && final(self)@ == old(self)@
                } else {
                    &&& r matches Ok(Some(data))
                    &&& data@ == t.incoming.subrange(0, t.recv_len(max as int))
                    &&& final(self)@ == old(self)@.with_stream(quad, t.recv(max as int))
                },
            },
            final(self).wf(),
    {
        let at = find_entry(&self.streams, quad);
        if at >= self.streams.len() {
            return Err(Error::StreamClosed(quad.src));
        }
        if self.streams[at].tcb.incoming.len() == 0 && !self.streams[at].tcb.read_closed {
            return Ok(None);
        }
        let ghost before = entries_of(self.streams@);
        proof {
            lemma_first_at(quads(before), quad);
            assert(ManagerModel::entry_ok(self@.streams[at as int]));
            lemma_recv_wf(before[at as int].tcb, max as int);
            lemma_replace_wf(
                self@,
                true,
                at as int,
                Entry { quad, tcb: before[at as int].tcb.recv(max as int) },
            );
        }
        let data = self.streams[at].tcb.recv(max);
        proof {
            assert(entries_of(self.streams@) =~= before.update(
                at as int,
                Entry { quad, tcb: before[at as int].tcb.recv(max as int) },
            ));
        }
        Ok(Some(data))
    }

    /// Appends bytes of `data` to what the connection named `quad` is to
    /// send, as many as there is room for. Fails if the local side of the
    /// connection is closed. Returns how many bytes were taken, or nothing
    /// if there is no room at all.
    pub fn write(&mut self, quad: Quad, data: &[u8]) -> (r: Result<Option<usize>, Error>)
        requires
            old(self).wf(),
        ensures
            match old(self)@.stream(quad) {
                None => r == Err::<Option<usize>, Error>(Error::StreamClosed(quad.src)) && final(self)@
                    == old(self)@,
                Some(t) => if t.write_closed {
                    r == Err::<Option<usize>, Error>(Error::NotConnected) && final(self)@ == old(self)@
                } else if t.is_outgoing_full() {
                    r == Ok::<Option<usize>, Error>(None) && final(self)@ == old(self)@
                } else {
                    &&& r == Ok::<Option<usize>, Error>(
                        Some(least(data@.len() as int, t.capacity - t.outgoing.len()) as usize),
                    )
                    &&& final(self)@ == old(self)@.with_stream(quad, t.write(data@))
                },
            },
            final(self).wf(),
    {
        let at = find_entry(&self.streams, quad);
        if at >= self.streams.len() {
            return Err(Error::StreamClosed(quad.src));
        }
        if self.streams[at].tcb.write_closed {
            return Err(Error::NotConnected);
        }
        if self.streams[at].tcb.is_outgoing_full() {
            return Ok(None);
        }
        let ghost before = entries_of(self.streams@);
        proof {
            lemma_first_at(quads(before), quad);
            assert(ManagerModel::entry_ok(self@.streams[at as int]));
            lemma_write_wf(before[at as int].tcb, data@);
            lemma_replace_wf(
                self@,
                true,
                at as int,
                Entry { quad, tcb: before[at as int].tcb.write(data@) },
            );
        }
        let n = self.streams[at].tcb.write(data);
        proof {
            assert(entries_of(self.streams@) =~= before.update(
                at as int,
                Entry { quad, tcb: before[at as int].tcb.write(data@) },
            ));
        }
        Ok(Some(n))
    }

    /// Whether all that was written to the connection named `quad` is
    /// acknowledged.
    pub fn flushed(&self, quad: Quad) -> (r: Result<bool, Error>)
        ensures
            r == (match self@.stream(quad) {
                None => Err::<bool, Error>(Error::StreamClosed(quad.src)),
                Some(t) => Ok(t.outgoing.len() == 0),
            }),
    {
        let at = find_entry(&self.streams, quad);
        if at >= self.streams.len() {
            return Err(Error::StreamClosed(quad.src));
        }
        Ok(self.streams[at].tcb.outgoing.len() == 0)
    }

    /// Closes the local side of the connection named `quad`, if it is open:
    /// in the states ESTABLISHED and CLOSE-WAIT. In any other state nothing
    /// changes.
    pub fn close(&mut self, quad: Quad) -> (r: Result<(), Error>)
        requires
            old(self).wf(),
        ensures
            match old(self)@.stream(quad) {
                None => r == Err::<(), Error>(Error::StreamClosed(quad.src)) && final(self)@ == old(self)@,
                Some(t) => r == Ok::<(), Error>(()) && final(self)@ == (if t.state == State::Estab
                    || t.state == State::CloseWait {
                    old(self)@.with_stream(quad, t.close())
                } else {
                    old(self)@
                }),
            },
            final(self).wf(),
    {
        let at = find_entry(&self.streams, quad);
        if at >= self.streams.len() {
            return Err(Error::StreamClosed(quad.src));
        }
        let state = self.streams[at].tcb.state;
        if state == State::Estab || state == State::CloseWait {
            let ghost before = entries_of(self.streams@);
            proof {
                lemma_first_at(quads(before), quad);
                assert(ManagerModel::entry_ok(self@.streams[at as int]));
                lemma_close_wf(before[at as int].tcb);
                lemma_replace_wf(self@, true, at as int, Entry { quad, tcb: before[at as int].tcb.close() });
            }
            self.streams[at].tcb.close();
            proof {
                assert(entries_of(self.streams@) =~= before.update(
                    at as int,
                    Entry { quad, tcb: before[at as int].tcb.close() },
                ));
            }
        }
        Ok(())
    }

    /// Whether the close of the connection named `quad` has ended: the
    /// connection is gone, or the peer has acknowledged the FIN.
    pub fn is_closed(&self, quad: Quad) -> (r: bool)
        ensures
            r == (match self@.stream(quad) {
                None => true,
                Some(t) => t.is_fin_acked(),
            }),
    {
        let at = find_entry(&self.streams, quad);
        if at >= self.streams.len() {
            return true;
        }
        self.streams[at].tcb.is_fin_acked()
    }

    /// Sets the thresholds on the retransmission time of the connection
    /// named `quad`: `r2` if it is given, and `r2_syn` if it is given.
    pub fn set_thresholds(&mut self, quad: Quad, r2: Option<u64>, r2_syn: Option<u64>) -> (found: bool)
        requires
            old(self).wf(),
        ensures
            found == old(self)@.stream(quad).is_some(),
            match old(self)@.stream(quad) {
                None => final(self)@ == old(self)@,
                Some(t) => final(self)@ == old(self)@.with_stream(
                    quad,
                    TcbModel {
                        r2: match r2 {
                            Some(x) => x,
                            None => t.r2,
                        },
                        r2_syn: match r2_syn {
                            Some(x) => x,
                            None => t.r2_syn,
                        },
                        ..t
                    },
                ),
            },
            final(self).wf(),
    {
        let at = find_entry(&self.streams, quad);
        if at >= self.streams.len() {
            return false;
        }
        let ghost before = entries_of(self.streams@);
        let ghost t = before[at as int].tcb;
        let ghost u = TcbModel {
            r2: match r2 {
                Some(x) => x,
                None => t.r2,
            },
            r2_syn: match r2_syn {
                Some(x) => x,
                None => t.r2_syn,
            },
            ..t
        };
        proof {
            lemma_first_at(quads(before), quad);
            assert(ManagerModel::entry_ok(self@.streams[at as int]));
            lemma_replace_wf(self@, true, at as int, Entry { quad, tcb: u });
        }
        if let Some(x) = r2 {
            self.streams[at].tcb.set_r2(x);
        }
        if let Some(x) = r2_syn {
            self.streams[at].tcb.set_r2_syn(x);
        }
        proof {
            assert(entries_of(self.streams@) =~= before.update(at as int, Entry { quad, tcb: u }));
        }
        true
    }
}

impl Manager {
    /// A copy of the connection named `quad`, established or pending, if the
    /// table holds one.
    pub fn connection(&self, quad: Quad) -> (r: Option<crate::tcb::TCB>)
        ensures
            match r {
                Some(t) => Some(t@) == (if self@.stream(quad).is_some() {
                    self@.stream(quad)
                } else {
                    Some(self@.pending[first_at(quads(self@.pending), quad)].tcb)
                }) && self@.has_connection(quad),
                None => !self@.has_connection(quad),
            },
    {
        let at = find_entry(&self.streams, quad);
        if at < self.streams.len() {
            return Some(self.streams[at].tcb.clone());
        }
        let at = find_entry(&self.pending, quad);
        if at < self.pending.len() {
            return Some(self.pending[at].tcb.clone());
        }
        None
    }

    /// Whether `port` is bound.
    pub fn is_bound(&self, port: u16) -> (r: bool)
        ensures
            r == self@.is_bound(port),
    {
        crate::manager::find_port(&self.bounded, port) < self.bounded.len()
    }

    /// How many connections shake hands, and how many are established.
    pub fn counts(&self) -> (r: (usize, usize))
        ensures
            r.0 == self@.pending.len(),
            r.1 == self@.streams.len(),
    {
        (self.pending.len(), self.streams.len())
    }
}

impl TcpStream {
    /// The name of the connection.
    pub fn quad(&self) -> (q: Quad)
        ensures
            q == self.quad,
    {
        self.quad
    }

    /// Records that the holder was told of a reset of the connection.
    pub fn mark_reset(&mut self)
        ensures
            *final(self) == (TcpStream { reset: true, ..*old(self) }),
    {
        self.reset = true;
    }

    /// Reads at most `max` bytes. Fails if the connection was reset or is
    /// gone. Returns nothing where the reader has to wait, and an empty read
    /// at the end of the stream.
    pub fn read(&self, stack: &mut NetStack, max: usize) -> (r: Result<Option<Vec<u8>>, Error>)
        requires
            old(stack).wf(),
        ensures
            final(stack).addr == old(stack).addr,
            self.reset ==> r == Err::<Option<Vec<u8>>, Error>(Error::ConnectionReset) && final(stack).manager@ == old(stack).manager@,
            !self.reset ==> match old(stack).manager@.stream(self.quad) {
                None => r == Err::<Option<Vec<u8>>, Error>(Error::StreamClosed(self.quad.src))
                    && final(stack).manager@ == old(stack).manager@,
                Some(t) => if t.incoming.len() == 0 && !t.read_closed {
                    r == Ok::<Option<Vec<u8>>, Error>(None) && final(stack).manager@ == old(stack).manager@
                } else {
                    &&& r matches Ok(Some(data))
                    &&& data@ == t.incoming.subrange(0, t.recv_len(max as int))
                    &&& final(stack).manager@ == old(stack).manager@.with_stream(
                        self.quad,
                        t.recv(max as int),
                    )
                },
            },
            final(stack).wf(),
    {
        if self.reset {
            return Err(Error::ConnectionReset);
        }
        stack.manager.read(self.quad, max)
    }

    /// Writes bytes of `data`, as many as there is room for. Fails with
    /// `NotConnected` if the local side was closed, through this handle or
    /// any other, with `ConnectionReset` if the holder was told of a reset,
    /// and with `StreamClosed` if the connection is gone. Returns how many
    /// bytes were taken, or nothing where the writer has to wait for room.
    pub fn write(&self, stack: &mut NetStack, data: &[u8]) -> (r: Result<Option<usize>, Error>)
        requires
            old(stack).wf(),
        ensures
            final(stack).addr == old(stack).addr,
            self.closed ==> r == Err::<Option<usize>, Error>(Error::NotConnected) && final(stack).manager@ == old(stack).manager@,
            !self.closed && self.reset ==> r == Err::<Option<usize>, Error>(Error::ConnectionReset)
                && final(stack).manager@ == old(stack).manager@,
            !self.closed && !self.reset ==> match old(stack).manager@.stream(self.quad) {
                None => r == Err::<Option<usize>, Error>(Error::StreamClosed(self.quad.src))
                    && final(stack).manager@ == old(stack).manager@,
                Some(t) => if t.write_closed {
                    r == Err::<Option<usize>, Error>(Error::NotConnected) && final(stack).manager@
                        == old(stack).manager@
                } else if t.is_outgoing_full() {
                    r == Ok::<Option<usize>, Error>(None) && final(stack).manager@ == old(stack).manager@
                } else {
                    &&& r == Ok::<Option<usize>, Error>(
                        Some(least(data@.len() as int, t.capacity - t.outgoing.len()) as usize),
                    )
                    &&& final(stack).manager@ == old(stack).manager@.with_stream(
                        self.quad,
                        t.write(data@),
                    )
                },
            },
            final(stack).wf(),
    {
        if self.closed {
            return Err(Error::NotConnected);
        }
        if self.reset {
            return Err(Error::ConnectionReset);
        }
        stack.manager.write(self.quad, data)
    }

    /// Whether all that was written is acknowledged. Fails if the
    /// connection was reset or is gone.
    pub fn flush(&self, stack: &NetStack) -> (r: Result<bool, Error>)
        ensures
            r == (if self.reset {
                Err::<bool, Error>(Error::ConnectionReset)
            } else {
                match stack.manager@.stream(self.quad) {
                    None => Err::<bool, Error>(Error::StreamClosed(self.quad.src)),
                    Some(t) => Ok(t.outgoing.len() == 0),
                }
            }),
    {
        if self.reset {
            return Err(Error::ConnectionReset);
        }
        stack.manager.flushed(self.quad)
    }

    /// Closes the local side: no more can be written through this handle,
    /// and the connection, if it is still open, sends its FIN. Returns
    /// whether the close has ended already; if not, the holder waits for the
    /// signal to the closer.
    pub fn close(&mut self, stack: &mut NetStack) -> (ended: bool)
        requires
            old(stack).wf(),
        ensures
            *final(self) == (TcpStream { closed: true, ..*old(self) }),
            final(stack).addr == old(stack).addr,
            match old(stack).manager@.stream(old(self).quad) {
                None => ended && final(stack).manager@ == old(stack).manager@,
                Some(t) => if t.state == State::Estab || t.state == State::CloseWait {
                    final(stack).manager@ == old(stack).manager@.with_stream(old(self).quad, t.close())
                        && ended == t.close().is_fin_acked()
                } else {
                    final(stack).manager@ == old(stack).manager@ && ended == t.is_fin_acked()
                },
            },
            final(stack).wf(),
    {
        self.closed = true;
        let ghost before = stack.manager@;
        let _ = stack.manager.close(self.quad);
        proof {
            lemma_first_at(quads(before.streams), self.quad);
            assert(quads(stack.manager@.streams) =~= quads(before.streams));
        }
        stack.manager.is_closed(self.quad)
    }

    /// Sets the time after which a data segment that is not acknowledged
    /// ends the connection, in milliseconds.
    pub fn set_r2(&self, stack: &mut NetStack, r2: u64)
        requires
            old(stack).wf(),
        ensures
            final(stack).addr == old(stack).addr,
            match old(stack).manager@.stream(self.quad) {
                None => final(stack).manager@ == old(stack).manager@,
                Some(t) => final(stack).manager@ == old(stack).manager@.with_stream(
                    self.quad,
                    TcbModel { r2, ..t },
                ),
            },
            final(stack).wf(),
    {
        let _ = stack.manager.set_thresholds(self.quad, Some(r2), None);
    }

    /// Sets the time after which a SYN that is not acknowledged ends the
    /// connection, in milliseconds.
    pub fn set_r2_syn(&self, stack: &mut NetStack, r2_syn: u64)
        requires
            old(stack).wf(),
        ensures
            final(stack).addr == old(stack).addr,
            match old(stack).manager@.stream(self.quad) {
                None => final(stack).manager@ == old(stack).manager@,
                Some(t) => final(stack).manager@ == old(stack).manager@.with_stream(
                    self.quad,
                    TcbModel { r2_syn, ..t },
                ),
            },
            final(stack).wf(),
    {
        let _ = stack.manager.set_thresholds(self.quad, None, Some(r2_syn));
    }
}

} // verus!

//! The connection table: the ports bound, the connections that shake hands
//! and those established, and the backlogs of connections that wait to be
//! accepted.

use vstd::prelude::*;
use crate::codec::{decode, emit, frames_of, write_reset, Header};
use crate::err::Error;
use crate::model::TcbModel;
use crate::table::{
    enqueued, failed, first_at, given_up, ports, quads, reopened, signal_of, tick_entries, top,
    without, Backlog, Ended, Entry, ManagerModel, Signal, EPHEMERAL_FLOOR,
};
use crate::tablelaws::{
    lemma_calls_wf, lemma_first_at, lemma_first_at_is, lemma_route_wf, lemma_table_tick_wf, lemma_top,
};
use crate::tcb::{Action, TCB};
use crate::types::{Dual, Kind, Quad};

verus! {

/// A connection that is established and waits to be accepted.
#[derive(Debug, Clone, Copy)]
pub struct EstabElement {
    pub quad: Quad,
}

/// The backlog of a port.
#[derive(Debug)]
pub struct EstabEntry {
    pub(crate) port: u16,
    pub(crate) elts: Vec<EstabElement>,
    pub(crate) failure: Option<Error>,
}

/// A connection in the table.
#[derive(Debug)]
pub struct StreamEntry {
    pub(crate) quad: Quad,
    pub(crate) tcb: TCB,
}

/// The connection table.
#[derive(Debug)]
pub struct Manager {
    pub(crate) iss: u32,
    pub(crate) bounded: Vec<u16>,
    pub(crate) pending: Vec<StreamEntry>,
    pub(crate) established: Vec<EstabEntry>,
    pub(crate) streams: Vec<StreamEntry>,
}

impl View for StreamEntry {
    type V = Entry;

    open(crate) spec fn view(&self) -> Entry {
        Entry { quad: self.quad, tcb: self.tcb@ }
    }
}

impl View for EstabEntry {
    type V = Backlog;

    open(crate) spec fn view(&self) -> Backlog {
        Backlog {
            port: self.port,
            elts: Seq::new(self.elts@.len(), |i: int| self.elts@[i].quad),
            failure: self.failure,
        }
    }
}

/// The connections that a list holds.
pub open spec fn entries_of(v: Seq<StreamEntry>) -> Seq<Entry> {
    Seq::new(v.len(), |i: int| v[i]@)
}

/// The backlogs that a list holds.
pub open spec fn backlogs_of(v: Seq<EstabEntry>) -> Seq<Backlog> {
    Seq::new(v.len(), |i: int| v[i]@)
}

impl View for Manager {
    type V = ManagerModel;

    open(crate) spec fn view(&self) -> ManagerModel {
        ManagerModel {
            iss: self.iss,
            bounded: self.bounded@,
            pending: entries_of(self.pending@),
            established: backlogs_of(self.established@),
            streams: entries_of(self.streams@),
        }
    }
}

/// The index of the first connection named `quad` in a list, or the length
/// of the list.
pub fn find_entry(v: &Vec<StreamEntry>, quad: Quad) -> (i: usize)
    ensures
        i == first_at(quads(entries_of(v@)), quad),
        i <= v@.len(),
        i < v@.len() ==> v@[i as int]@.quad == quad,
{
    let ghost keys = quads(entries_of(v@));
    let mut i: usize = 0;
    while i < v.len()
        invariant
            i <= v@.len(),
            keys == quads(entries_of(v@)),
            forall|j: int| 0 <= j < i ==> keys[j] != quad,
        decreases v@.len() - i,
    {
        if v[i].quad == quad {
            proof {
                lemma_first_at_is(keys, quad, i as int);
            }
            return i;
        }
        i += 1;
    }
    proof {
        lemma_first_at_is(keys, quad, i as int);
    }
    i
}

/// The index of the backlog of `port` in a list, or the length of the list.
pub fn find_backlog(v: &Vec<EstabEntry>, port: u16) -> (i: usize)
    ensures
        i == first_at(ports(backlogs_of(v@)), port),
        i <= v@.len(),
        i < v@.len() ==> v@[i as int]@.port == port,
{
    let ghost keys = ports(backlogs_of(v@));
    let mut i: usize = 0;
    while i < v.len()
        invariant
            i <= v@.len(),
            keys == ports(backlogs_of(v@)),
            forall|j: int| 0 <= j < i ==> keys[j] != port,
        decreases v@.len() - i,
    {
        if v[i].port == port {
            proof {
                lemma_first_at_is(keys, port, i as int);
            }
            return i;
        }
        i += 1;
    }
    proof {
        lemma_first_at_is(keys, port, i as int);
    }
    i
}

/// The index of `port` in a list of ports, or the length of the list.
pub fn find_port(v: &Vec<u16>, port: u16) -> (i: usize)
    ensures
        i == first_at(v@, port),
        i <= v@.len(),
        i < v@.len() ==> v@[i as int] == port,
{
    let mut i: usize = 0;
    while i < v.len()
        invariant
            i <= v@.len(),
            forall|j: int| 0 <= j < i ==> v@[j] != port,
        decreases v@.len() - i,
    {
        if v[i] == port {
            proof {
                lemma_first_at_is(v@, port, i as int);
            }
            return i;
        }
        i += 1;
    }
    proof {
        lemma_first_at_is(v@, port, i as int);
    }
    i
}

/// The greatest port of a list, if it has any.
pub fn greatest(v: &Vec<u16>) -> (r: Option<u16>)
    ensures
        v@.len() == 0 ==> r.is_none(),
        v@.len() > 0 ==> r == Some(top(v@) as u16) && 0 <= top(v@) <= 65535,
{
    if v.len() == 0 {
        return None;
    }
    let mut best: u16 = v[0];
    let mut i: usize = 1;
    proof {
        let one = v@.subrange(0, 1);
        assert(one.drop_last() =~= Seq::empty());
        assert(one.last() == v@[0]);
        assert(top(one.drop_last()) == -1);
    }
    while i < v.len()
        invariant
            1 <= i <= v@.len(),
            best == top(v@.subrange(0, i as int)),
        decreases v@.len() - i,
    {
        proof {
            assert(v@.subrange(0, i + 1).drop_last() =~= v@.subrange(0, i as int));
            assert(v@.subrange(0, i + 1).last() == v@[i as int]);
        }
        if v[i] > best {
            best = v[i];
        }
        i += 1;
    }
    proof {
        assert(v@.subrange(0, i as int) =~= v@);
        lemma_top(v@);
    }
    Some(best)
}

/// Takes the first connection named `quad` out of a list, if there is one.
pub fn remove_entry(v: &mut Vec<StreamEntry>, quad: Quad) -> (r: Option<StreamEntry>)
    ensures
        entries_of(final(v)@) == without(entries_of(old(v)@), quad),
        r.is_some() == (first_at(quads(entries_of(old(v)@)), quad) < old(v)@.len()),
        r matches Some(e) ==> e == old(v)@[first_at(quads(entries_of(old(v)@)), quad)],
{
    let at = find_entry(v, quad);
    if at < v.len() {
        let e = v.remove(at);
        proof {
            assert(entries_of(v@) =~= entries_of(old(v)@).remove(at as int));
        }
        Some(e)
    } else {
        None
    }
}

/// Ticks the connections of a list in order, takes out those that are to be
/// destroyed and records them.
#[verifier::rlimit(80)]
pub fn tick_list(v: &mut Vec<StreamEntry>, now: u64, out: &mut Vec<Vec<u8>>, ended: &mut Vec<Ended>)
    requires
        forall|i: int| 0 <= i < old(v)@.len() ==> (#[trigger] old(v)@[i])@.tcb.wf(),
    ensures
        entries_of(final(v)@) == tick_entries(entries_of(old(v)@), now).kept,
        frames_of(*final(out)) == frames_of(*old(out)) + tick_entries(entries_of(old(v)@), now).frames,
        final(ended)@ == old(ended)@ + tick_entries(
            entries_of(old(v)@),
            now,
        ).deleted,
{
    let ghost all = tick_entries(entries_of(v@), now);
    let ghost frames0 = frames_of(*out);
    let ghost ended0 = ended@;
    let mut i: usize = 0;
    proof {
        assert(entries_of(v@).subrange(0, v@.len() as int) =~= entries_of(v@));
        assert(Seq::<Entry>::empty() + all.kept =~= all.kept);
        assert(frames0 + all.frames =~= frames0 + Seq::<Seq<u8>>::empty() + all.frames);
        assert(ended0 + all.deleted =~= ended0 + Seq::<Ended>::empty() + all.deleted);
    }
    while i < v.len()
        invariant
            i <= v@.len(),
            forall|j: int| i <= j < v@.len() ==> (#[trigger] v@[j])@.tcb.wf(),
            all.kept == entries_of(v@).subrange(0, i as int) + tick_entries(
                entries_of(v@).subrange(i as int, v@.len() as int),
                now,
            ).kept,
            frames0 + all.frames == frames_of(*out) + tick_entries(
                entries_of(v@).subrange(i as int, v@.len() as int),
                now,
            ).frames,
            ended0 + all.deleted == ended@ + tick_entries(
                entries_of(v@).subrange(i as int, v@.len() as int),
                now,
            ).deleted,
        decreases v@.len() - i,
    {
        let ghost before = v@;
        let ghost rest = entries_of(before).subrange(i as int, before.len() as int);
        let ghost step = rest[0].tcb.on_tick(now);
        let ghost tail = tick_entries(rest.drop_first(), now);
        let ghost out0 = frames_of(*out);
        let ghost ended1 = ended@;
        let delete = v[i].tcb.on_tick(now, out);
        proof {
            assert(rest[0] == before[i as int]@);
            assert(rest.drop_first() =~= entries_of(before).subrange(i + 1, before.len() as int));
            assert(out0 + (step.frames + tail.frames) =~= out0 + step.frames + tail.frames);
        }
        if delete {
            let e = v.remove(i);
            let gone = Ended {
                quad: e.quad,
                reset: e.tcb.reset,
                active: e.tcb.kind == Kind::Active,
            };
            let ghost want = Ended {
                quad: rest[0].quad,
                reset: step.tcb.reset,
                active: step.tcb.kind == Kind::Active,
            };
            proof {
                assert(e@.tcb == step.tcb);
                assert(e@.quad == rest[0].quad);
                assert(gone == want);
                assert(tick_entries(rest, now).deleted == seq![want] + tail.deleted);
            }
            ended.push(gone);
            proof {
                assert(entries_of(v@).subrange(0, i as int) =~= entries_of(before).subrange(
                    0,
                    i as int,
                ));
                assert(entries_of(v@).subrange(i as int, v@.len() as int) =~= rest.drop_first());
                assert(ended@ == ended1.push(want));
                assert(ended1 + (seq![want] + tail.deleted) =~= ended@ + tail.deleted);
            }
        } else {
            proof {
                let e = Entry { quad: rest[0].quad, tcb: step.tcb };
                assert(v@[i as int]@ == e);
                assert(entries_of(v@).subrange(0, i + 1) =~= entries_of(before).subrange(0, i as int)
                    + seq![e]);
                assert(entries_of(v@).subrange(i + 1, v@.len() as int) =~= rest.drop_first());
                assert(entries_of(before).subrange(0, i as int) + (seq![e] + tail.kept)
                    =~= entries_of(before).subrange(0, i as int) + seq![e] + tail.kept);
            }
            i += 1;
        }
    }
    proof {
        assert(entries_of(v@).subrange(i as int, v@.len() as int) =~= Seq::empty());
        assert(entries_of(v@).subrange(0, i as int) =~= entries_of(v@));
        assert(all.kept =~= entries_of(v@));
        assert(frames_of(*out) =~= frames0 + all.frames);
        assert(ended@ =~= ended0 + all.deleted);
    }
}

/// Puts `quad` at the end of the backlog of `port`, if that port has one.
pub fn enqueue(v: &mut Vec<EstabEntry>, port: u16, quad: Quad)
    ensures
        backlogs_of(final(v)@) == enqueued(backlogs_of(old(v)@), port, quad),
{
    let at = find_backlog(v, port);
    if at < v.len() {
        let ghost before = v@[at as int]@;
        v[at].elts.push(EstabElement { quad });
        proof {
            assert(v@[at as int]@.elts =~= before.elts.push(quad));
            assert(backlogs_of(v@) =~= enqueued(backlogs_of(old(v)@), port, quad));
        }
    }
}

/// Gives `port` an empty backlog without failure, in place of the one it
/// has, if it has one.
pub fn reopen(v: &mut Vec<EstabEntry>, port: u16)
    ensures
        backlogs_of(final(v)@) == reopened(backlogs_of(old(v)@), port),
{
    let at = find_backlog(v, port);
    let fresh = EstabEntry { port, elts: Vec::new(), failure: None };
    proof {
        assert(fresh@.elts =~= Seq::empty());
    }
    if at < v.len() {
        v[at] = fresh;
        proof {
            assert(backlogs_of(v@) =~= reopened(backlogs_of(old(v)@), port));
        }
    } else {
        v.push(fresh);
        proof {
            assert(backlogs_of(v@) =~= reopened(backlogs_of(old(v)@), port));
        }
    }
}

/// Records that the active open from `port` has failed with `error`, if
/// that port has a backlog.
pub fn fail(v: &mut Vec<EstabEntry>, port: u16, error: Error)
    ensures
        backlogs_of(final(v)@) == failed(backlogs_of(old(v)@), port, error),
{
    let at = find_backlog(v, port);
    if at < v.len() {
        let ghost before = v@[at as int]@;
        v[at].failure = Some(error);
        proof {
            assert(v@[at as int]@.elts =~= before.elts);
            assert(backlogs_of(v@) =~= failed(backlogs_of(old(v)@), port, error));
        }
    }
}

/// Hands an inbound segment to the connection at index `at` of a list.
fn deliver(
    v: &mut Vec<StreamEntry>,
    at: usize,
    h: &Header,
    data: &[u8],
    now: u64,
    out: &mut Vec<Vec<u8>>,
) -> (action: Action)
    requires
        at < old(v)@.len(),
        old(v)@[at as int]@.tcb.wf(),
        data@.len() <= 65535,
    ensures
        entries_of(final(v)@) == entries_of(old(v)@).update(
            at as int,
            Entry {
                quad: old(v)@[at as int]@.quad,
                tcb: old(v)@[at as int]@.tcb.on_segment(*h, data@, now).tcb,
            },
        ),
        action@ == old(v)@[at as int]@.tcb.on_segment(*h, data@, now).action,
        frames_of(*final(out)) == frames_of(*old(out)) + old(v)@[at as int]@.tcb.on_segment(
            *h,
            data@,
            now,
        ).frames,
{
    let action = v[at].tcb.on_segment(h, data, now, out);
    proof {
        assert(entries_of(v@) =~= entries_of(old(v)@).update(
            at as int,
            Entry {
                quad: old(v)@[at as int]@.quad,
                tcb: old(v)@[at as int]@.tcb.on_segment(*h, data@, now).tcb,
            },
        ));
    }
    action
}

impl Manager {
    /// The invariant of the table.
    pub open spec fn wf(&self) -> bool {
        self@.wf()
    }

    /// A table with nothing in it.
    pub fn new() -> (m: Manager)
        ensures
            m@ == ManagerModel::empty(),
            m.wf(),
    {
        let m = Manager {
            iss: 0,
            bounded: Vec::new(),
            pending: Vec::new(),
            established: Vec::new(),
            streams: Vec::new(),
        };
        proof {
            assert(m@.pending =~= Seq::empty());
            assert(m@.streams =~= Seq::empty());
            assert(m@.established =~= Seq::empty());
            assert(m@.bounded =~= Seq::empty());
        }
        m
    }

    /// Sets the counter that seeds the initial sequence number of the next
    /// connection.
    pub fn set_iss(&mut self, iss: u32)
        ensures
            final(self)@ == (ManagerModel { iss, ..old(self)@ }),
            old(self).wf() ==> final(self).wf(),
    {
        self.iss = iss;
    }

    /// The counter that seeds initial sequence numbers.
    pub fn iss(&self) -> (r: u32)
        ensures
            r == self@.iss,
    {
        self.iss
    }

    /// Binds `port`. Fails, and changes nothing, if the port is bound.
    /// Otherwise the port is bound and gets an empty backlog, in place of
    /// one that an earlier listener or open has left.
    pub fn bind(&mut self, port: u16) -> (r: Result<(), Error>)
        requires
            old(self).wf(),
        ensures
            final(self)@ == old(self)@.bind(port),
            r == (if old(self)@.is_bound(port) {
                Err::<(), Error>(Error::PortInUse(port))
            } else {
                Ok(())
            }),
            final(self).wf(),
    {
        proof {
            lemma_calls_wf(self@, port, 0, Dual { ipv4: 0, port: 0 });
        }
        if find_port(&self.bounded, port) < self.bounded.len() {
            return Err(Error::PortInUse(port));
        }
        reopen(&mut self.established, port);
        self.bounded.push(port);
        Ok(())
    }

    /// Releases `port`: it is not bound any more. Its backlog stays.
    pub fn unbind(&mut self, port: u16)
        requires
            old(self).wf(),
        ensures
            final(self)@ == old(self)@.unbind(port),
            final(self).wf(),
    {
        proof {
            lemma_calls_wf(self@, port, 0, Dual { ipv4: 0, port: 0 });
        }
        let at = find_port(&self.bounded, port);
        if at < self.bounded.len() {
            self.bounded.remove(at);
        }
    }

    /// Starts an active open from the address `local` to `remote`. The
    /// local port is one above the greatest port bound, or 4001 if none is
    /// bound; it is bound and gets an empty backlog, on which the connection
    /// will wait once it is established. A connection in the SYN-SENT state
    /// is pending; its SYN goes out at the next tick. Returns the name of
    /// the connection. Fails, and changes nothing, if no port is left or the
    /// table holds a connection of that name.
    pub fn connect(&mut self, local: u32, remote: Dual) -> (r: Result<Quad, Error>)
        requires
            old(self).wf(),
        ensures
            old(self)@.can_connect(local, remote) ==> r == Ok::<Quad, Error>(
                old(self)@.next_quad(local, remote),
            ) && final(self)@ == old(self)@.connect(local, remote),
            !old(self)@.can_connect(local, remote) ==> r == Err::<Quad, Error>(
                Error::PortInUse(least_port(old(self)@.next_port())),
            ) && final(self)@ == old(self)@,
            final(self).wf(),
    {
        proof {
            lemma_calls_wf(self@, 0, local, remote);
            lemma_top(self.bounded@);
        }
        let top: u16 = match greatest(&self.bounded) {
            Some(p) => p,
            None => EPHEMERAL_FLOOR,
        };
        if top == u16::MAX {
            return Err(Error::PortInUse(u16::MAX));
        }
        let port: u16 = top + 1;
        let quad = Quad { src: Dual { ipv4: local, port }, dst: remote };
        if find_entry(&self.streams, quad) < self.streams.len() || find_entry(&self.pending, quad)
            < self.pending.len() {
            return Err(Error::PortInUse(port));
        }
        self.bounded.push(port);
        let tcb = TCB::syn_sent(quad, self.iss);
        self.pending.push(StreamEntry { quad, tcb });
        reopen(&mut self.established, port);
        proof {
            let e = Entry { quad, tcb: TcbModel::syn_sent(quad, self.iss) };
            assert(entries_of(self.pending@) =~= entries_of(old(self).pending@).push(e));
        }
        Ok(quad)
    }

    /// Takes the connection that joined the backlog of `port` last. Returns
    /// nothing if the backlog is empty, and fails if the port has no
    /// backlog.
    pub fn accept(&mut self, port: u16) -> (r: Result<Option<Quad>, Error>)
        requires
            old(self).wf(),
        ensures
            r == old(self)@.accepted(port),
            final(self)@ == old(self)@.accept(port),
            final(self).wf(),
    {
        proof {
            lemma_calls_wf(self@, port, 0, Dual { ipv4: 0, port: 0 });
        }
        let at = find_backlog(&self.established, port);
        if at >= self.established.len() {
            return Err(Error::PortClosed(port));
        }
        let ghost before = self.established@[at as int]@;
        let ghost all = backlogs_of(self.established@);
        match self.established[at].elts.pop() {
            Some(e) => {
                proof {
                    assert(self.established@[at as int]@.elts =~= before.elts.drop_last());
                    assert(backlogs_of(self.established@) =~= all.update(
                        at as int,
                        Backlog { elts: before.elts.drop_last(), ..before },
                    ));
                }
                Ok(Some(e.quad))
            },
            None => {
                proof {
                    assert(self.established@[at as int]@.elts =~= before.elts);
                    assert(backlogs_of(self.established@) =~= all);
                }
                Ok(None)
            },
        }
    }

    /// Says what the active open from `port` has come to, and takes the
    /// connection from the backlog if it is established. Returns the
    /// connection, nothing while the handshake goes on, the failure if the
    /// peer refused the connection or it was given up, and an error if the
    /// port has no backlog.
    pub fn opened(&mut self, port: u16) -> (r: Result<Option<Quad>, Error>)
        requires
            old(self).wf(),
        ensures
            r == old(self)@.opened(port),
            final(self)@ == old(self)@.accept(port),
            final(self).wf(),
    {
        let at = find_backlog(&self.established, port);
        if at < self.established.len() && self.established[at].elts.len() == 0 {
            proof {
                lemma_calls_wf(self@, port, 0, Dual { ipv4: 0, port: 0 });
            }
            return match self.established[at].failure {
                Some(e) => Err(e),
                None => Ok(None),
            };
        }
        self.accept(port)
    }

    /// Applies the action of the connection named `quad`.
    fn apply(&mut self, quad: Quad, action: Action) -> (signal: Signal)
        ensures
            final(self)@ == old(self)@.apply(quad, action@),
            signal == signal_of(action@),
    {
        match action {
            Action::Noop => Signal::Noop,
            Action::AddToPending(tcb) => {
                let ghost e = Entry { quad, tcb: tcb@ };
                self.pending.push(StreamEntry { quad, tcb });
                proof {
                    assert(entries_of(self.pending@) =~= entries_of(old(self).pending@).push(e));
                }
                Signal::Noop
            },
            Action::RemoveFromPending => {
                let _ = remove_entry(&mut self.pending, quad);
                Signal::Noop
            },
            Action::IsEstablished => {
                let ghost at = first_at(quads(entries_of(self.pending@)), quad);
                proof {
                    lemma_first_at(quads(entries_of(self.pending@)), quad);
                }
                match remove_entry(&mut self.pending, quad) {
                    Some(e) => {
                        let ghost moved = e@;
                        self.streams.push(e);
                        enqueue(&mut self.established, quad.src.port, quad);
                        proof {
                            assert(moved == entries_of(old(self).pending@)[at]);
                            assert(entries_of(self.streams@) =~= entries_of(old(self).streams@).push(
                                entries_of(old(self).pending@)[at],
                            ));
                        }
                    },
                    None => {},
                }
                Signal::Established
            },
            Action::Reset => {
                let _ = remove_entry(&mut self.streams, quad);
                if remove_entry(&mut self.pending, quad).is_some() {
                    fail(&mut self.established, quad.src.port, Error::ConnectionRefused);
                }
                Signal::Reset
            },
            Action::DeleteTCB => {
                let _ = remove_entry(&mut self.streams, quad);
                Signal::Deleted
            },
            Action::Wakeup { wake_up_reader, wake_up_writer, wake_up_closer } => Signal::Wakeup {
                wake_up_reader,
                wake_up_writer,
                wake_up_closer,
            },
            Action::ConnectionRefused => {
                let _ = remove_entry(&mut self.pending, quad);
                fail(&mut self.established, quad.src.port, Error::ConnectionRefused);
                Signal::Reset
            },
        }
    }

    /// Routes one inbound segment to its connection and applies what the
    /// connection asks for.
    fn route(&mut self, h: &Header, data: &[u8], now: u64, out: &mut Vec<Vec<u8>>) -> (signal: Signal)
        requires
            forall|i: int| 0 <= i < old(self).streams@.len() ==> (#[trigger] old(self).streams@[i])@.tcb.wf(),
            forall|i: int| 0 <= i < old(self).pending@.len() ==> (#[trigger] old(self).pending@[i])@.tcb.wf(),
            data@.len() <= 65535,
        ensures
            final(self)@ == old(self)@.on_segment(*h, data@, now).table,
            signal == old(self)@.on_segment(*h, data@, now).signal,
            frames_of(*final(out)) == frames_of(*old(out)) + old(self)@.on_segment(
                *h,
                data@,
                now,
            ).frames,
    {
        proof {
            assert(frames_of(*out) + Seq::<Seq<u8>>::empty() =~= frames_of(*out));
        }
        let quad = Quad { src: h.destination, dst: h.source };
        let s = find_entry(&self.streams, quad);
        if s < self.streams.len() {
            let action = deliver(&mut self.streams, s, h, data, now, out);
            return self.apply(quad, action);
        }
        let p = find_entry(&self.pending, quad);
        if p < self.pending.len() {
            let action = deliver(&mut self.pending, p, h, data, now, out);
            return self.apply(quad, action);
        }
        if find_port(&self.bounded, quad.src.port) < self.bounded.len() {
            let mut tcb = TCB::listen(quad, self.iss);
            let action = tcb.on_segment(h, data, now, out);
            return self.apply(quad, action);
        }
        if !h.rst {
            emit(out, write_reset(h, data));
            proof {
                assert(frames_of(*out) =~= frames_of(*old(out)) + old(self)@.on_segment(
                    *h,
                    data@,
                    now,
                ).frames);
            }
        }
        Signal::Noop
    }

    /// Routes one inbound segment with header `h` and payload `data` at
    /// `now`, in milliseconds, to its connection, applies what the
    /// connection asks for, and puts the frames to transmit at the end of
    /// `out`. Returns what is to be signalled for the connection that the
    /// segment names.
    pub fn on_segment(&mut self, h: &Header, data: &[u8], now: u64, out: &mut Vec<Vec<u8>>) -> (signal:
        Signal)
        requires
            old(self).wf(),
            data@.len() <= 65535,
        ensures
            final(self)@ == old(self)@.on_segment(*h, data@, now).table,
            signal == old(self)@.on_segment(*h, data@, now).signal,
            frames_of(*final(out)) == frames_of(*old(out)) + old(self)@.on_segment(
                *h,
                data@,
                now,
            ).frames,
            final(self).wf(),
    {
        proof {
            lemma_route_wf(self@, *h, data@, now);
            assert forall|i: int| 0 <= i < self.streams@.len() implies (
            #[trigger] self.streams@[i])@.tcb.wf() by {
                assert(ManagerModel::entry_ok(self@.streams[i]));
            }
            assert forall|i: int| 0 <= i < self.pending@.len() implies (
            #[trigger] self.pending@[i])@.tcb.wf() by {
                assert(ManagerModel::entry_ok(self@.pending[i]));
            }
        }
        self.route(h, data, now, out)
    }

    /// Decodes one inbound frame and routes its segment. A frame that does
    /// not decode is dropped. Returns the name of the connection that the
    /// segment belongs to and what is to be signalled for it.
    pub fn on_frame(&mut self, frame: &[u8], now: u64, out: &mut Vec<Vec<u8>>) -> (notice: Option<
        (Quad, Signal),
    >)
        requires
            old(self).wf(),
        ensures
            final(self)@ == old(self)@.on_frame(frame@, now).table,
            notice == old(self)@.on_frame(frame@, now).notice,
            frames_of(*final(out)) == frames_of(*old(out)) + old(self)@.on_frame(frame@, now).frames,
            final(self).wf(),
    {
        proof {
            assert(frames_of(*out) + Seq::<Seq<u8>>::empty() =~= frames_of(*out));
        }
        if frame.len() > 65535 {
            return None;
        }
        match decode(frame) {
            None => None,
            Some((h, offset)) => {
                let data = vstd::slice::slice_subrange(frame, offset, frame.len());
                let signal = self.on_segment(&h, data, now, out);
                Some((Quad { src: h.destination, dst: h.source }, signal))
            },
        }
    }

    /// Serves the timers of every connection at `now`, the established ones
    /// first, and removes the connections that are to be destroyed. An active
    /// open that is given up is recorded as failed on the backlog of its
    /// port. Puts the frames to transmit at the end of `out` and returns the
    /// connections removed.
    pub fn on_tick(&mut self, now: u64, out: &mut Vec<Vec<u8>>) -> (ended: Vec<Ended>)
        requires
            old(self).wf(),
        ensures
            final(self)@ == old(self)@.on_tick(now),
            frames_of(*final(out)) == frames_of(*old(out)) + tick_entries(old(self)@.streams, now).frames
                + tick_entries(old(self)@.pending, now).frames,
            ended@ == tick_entries(old(self)@.streams, now).deleted + tick_entries(
                old(self)@.pending,
                now,
            ).deleted,
            final(self).wf(),
    {
        proof {
            lemma_table_tick_wf(self@, now);
        }
        let mut ended: Vec<Ended> = Vec::new();
        let mut gone: Vec<Ended> = Vec::new();
        proof {
            assert forall|i: int| 0 <= i < self.streams@.len() implies (
            #[trigger] self.streams@[i])@.tcb.wf() by {
                assert(ManagerModel::entry_ok(self@.streams[i]));
            }
            assert forall|i: int| 0 <= i < self.pending@.len() implies (
            #[trigger] self.pending@[i])@.tcb.wf() by {
                assert(ManagerModel::entry_ok(self@.pending[i]));
            }
        }
        tick_list(&mut self.streams, now, out, &mut ended);
        tick_list(&mut self.pending, now, out, &mut gone);
        proof {
            assert(Seq::<Ended>::empty() + tick_entries(old(self)@.streams, now).deleted
                =~= tick_entries(old(self)@.streams, now).deleted);
            assert(Seq::<Ended>::empty() + tick_entries(old(self)@.pending, now).deleted
                =~= tick_entries(old(self)@.pending, now).deleted);
        }
        record(&mut self.established, &gone, &mut ended);
        ended
    }
}

/// Records on the backlogs every active open among the connections `gone`
/// as failed with a reset, and puts the connections at the end of `ended`.
fn record(v: &mut Vec<EstabEntry>, gone: &Vec<Ended>, ended: &mut Vec<Ended>)
    ensures
        backlogs_of(final(v)@) == given_up(backlogs_of(old(v)@), gone@),
        final(ended)@ == old(ended)@ + gone@,
{
    let mut i: usize = 0;
    proof {
        assert(gone@.subrange(0, 0) =~= Seq::empty());
        assert(old(ended)@ + Seq::<Ended>::empty() =~= old(ended)@);
    }
    while i < gone.len()
        invariant
            i <= gone@.len(),
            backlogs_of(v@) == given_up(backlogs_of(old(v)@), gone@.subrange(0, i as int)),
            ended@ == old(ended)@ + gone@.subrange(0, i as int),
        decreases gone@.len() - i,
    {
        let e = gone[i];
        proof {
            assert(gone@.subrange(0, i + 1).drop_last() =~= gone@.subrange(0, i as int));
            assert(gone@.subrange(0, i + 1).last() == e);
        }
        if e.active {
            fail(v, e.quad.src.port, Error::ConnectionReset);
        }
        ended.push(e);
        i += 1;
        proof {
            assert(ended@ =~= old(ended)@ + gone@.subrange(0, i as int));
        }
    }
    proof {
        assert(gone@.subrange(0, i as int) =~= gone@);
    }
}

/// The port that a failed active open names: the one it would have taken,
/// or the last port if none is left.
pub open spec fn least_port(p: int) -> u16 {
    if p <= 65535 {
        p as u16
    } else {
        65535
    }
}

} // verus!

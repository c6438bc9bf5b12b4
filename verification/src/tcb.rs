//! The transmission control block: the state of one connection and what it
//! does with inbound segments, ticks of the clock and the calls of the
//! application.

use std::collections::VecDeque;
use vstd::prelude::*;
use crate::model::{
    sent_data, ActionModel, TcbModel, DEFAULT_MSS, INITIAL_CWND, MIN_RTO, R1, R1_SYN, R2, R2_SYN,
    RECV_BUFFER, RTO_GRANULARITY,
};
use crate::model::{acknowledge, chained, rtt_sample};
use crate::queue::{lemma_acknowledge, lemma_acknowledge_step, lemma_sent_data_prefix};
use crate::seq::{ahead, is_between_wrapped, wrapping_lt};
use crate::wellformed::{
    lemma_ack_ranges, lemma_close_wf, lemma_created_wf, lemma_flight_bound, lemma_process_ack_wf,
    lemma_recv_wf, lemma_write_wf,
};
use crate::seq::{seq_add, seq_sub};
use crate::types::{Kind, Quad, RecvSpace, Segment, SendSpace, State};

verus! {

/// The state of one connection.
#[derive(Debug)]
pub struct TCB {
    pub(crate) quad: Quad,
    pub(crate) kind: Kind,
    pub(crate) state: State,
    pub(crate) reset: bool,
    pub(crate) write_closed: bool,
    pub(crate) read_closed: bool,
    pub(crate) time_wait: Option<u64>,
    pub(crate) snd: SendSpace,
    pub(crate) rcv: RecvSpace,
    pub(crate) srtt: u64,
    pub(crate) rttvar: u64,
    pub(crate) rto: u64,
    pub(crate) rtt_measured: bool,
    pub(crate) timeout: Option<u64>,
    pub(crate) r1: u64,
    pub(crate) r2: u64,
    pub(crate) r1_syn: u64,
    pub(crate) r2_syn: u64,
    pub(crate) cwnd: u32,
    pub(crate) ssthresh: u32,
    pub(crate) probe_timeout: Option<u64>,
    pub(crate) incoming: VecDeque<u8>,
    pub(crate) outgoing: VecDeque<u8>,
    pub(crate) segments: VecDeque<Segment>,
    pub(crate) capacity: usize,
}

/// What the connection table is to do after an inbound segment.
#[derive(Debug)]
pub enum Action {
    /// Nothing.
    Noop,
    /// Register the connection, in the state given, as pending.
    AddToPending(TCB),
    /// Forget the pending connection: its handshake was aborted.
    RemoveFromPending,
    /// Move the connection from pending to established and hand it to
    /// whoever accepts.
    IsEstablished,
    /// Remove the connection and wake all that wait on it with an error.
    Reset,
    /// Remove the connection: it has ended in order.
    DeleteTCB,
    /// Wake those that wait to read, to write or for the close to end.
    Wakeup { wake_up_reader: bool, wake_up_writer: bool, wake_up_closer: bool },
    /// Remove the connection: the peer refused the active open.
    ConnectionRefused,
}

impl View for TCB {
    type V = TcbModel;

    open(crate) spec fn view(&self) -> TcbModel {
        TcbModel {
            quad: self.quad,
            kind: self.kind,
            state: self.state,
            reset: self.reset,
            write_closed: self.write_closed,
            read_closed: self.read_closed,
            time_wait: self.time_wait,
            snd: self.snd,
            rcv: self.rcv,
            srtt: self.srtt,
            rttvar: self.rttvar,
            rto: self.rto,
            rtt_measured: self.rtt_measured,
            timeout: self.timeout,
            r1: self.r1,
            r2: self.r2,
            r1_syn: self.r1_syn,
            r2_syn: self.r2_syn,
            cwnd: self.cwnd,
            ssthresh: self.ssthresh,
            probe_timeout: self.probe_timeout,
            incoming: self.incoming@,
            outgoing: self.outgoing@,
            segments: self.segments@,
            capacity: self.capacity as nat,
        }
    }
}

impl View for Action {
    type V = ActionModel;

    open spec fn view(&self) -> ActionModel {
        match *self {
            Action::Noop => ActionModel::Noop,
            Action::AddToPending(t) => ActionModel::AddToPending(t@),
            Action::RemoveFromPending => ActionModel::RemoveFromPending,
            Action::IsEstablished => ActionModel::IsEstablished,
            Action::Reset => ActionModel::Reset,
            Action::DeleteTCB => ActionModel::DeleteTCB,
            Action::Wakeup { wake_up_reader, wake_up_writer, wake_up_closer } => ActionModel::Wakeup {
                wake_up_reader,
                wake_up_writer,
                wake_up_closer,
            },
            Action::ConnectionRefused => ActionModel::ConnectionRefused,
        }
    }
}

impl TCB {
    /// The invariant of a connection.
    pub open spec fn wf(&self) -> bool {
        self@.wf()
    }

    fn fresh(quad: Quad, kind: Kind, state: State, iss: u32) -> (tcb: TCB)
        ensures
            tcb@ == TcbModel::fresh(quad, kind, state, iss),
    {
        TCB {
            quad,
            kind,
            state,
            reset: false,
            write_closed: false,
            read_closed: false,
            time_wait: None,
            snd: SendSpace {
                una: iss,
                nxt: iss,
                wnd: 0,
                urp: 0,
                wl1: 0,
                wl2: 0,
                iss,
                mss: DEFAULT_MSS,
                max_wnd: 0,
            },
            rcv: RecvSpace { nxt: 0, wnd: RECV_BUFFER as u16, urp: 0, irs: 0, mss: DEFAULT_MSS },
            srtt: 0,
            rttvar: 0,
            rto: MIN_RTO,
            rtt_measured: false,
            timeout: None,
            r1: R1,
            r2: R2,
            r1_syn: R1_SYN,
            r2_syn: R2_SYN,
            cwnd: INITIAL_CWND,
            ssthresh: u32::MAX,
            probe_timeout: None,
            incoming: VecDeque::new(),
            outgoing: VecDeque::new(),
            segments: VecDeque::new(),
            capacity: 0,
        }
    }

    /// A passive connection in the LISTEN state, with its initial send
    /// sequence number.
    pub fn listen(quad: Quad, iss: u32) -> (tcb: TCB)
        ensures
            tcb@ == TcbModel::listen(quad, iss),
            tcb.wf(),
    {
        proof {
            lemma_created_wf(quad, iss);
        }
        Self::fresh(quad, Kind::Passive, State::Listen, iss)
    }

    /// An active connection in the SYN-SENT state, its SYN queued for the
    /// next tick.
    pub fn syn_sent(quad: Quad, iss: u32) -> (tcb: TCB)
        ensures
            tcb@ == TcbModel::syn_sent(quad, iss),
            tcb.wf(),
    {
        let mut tcb = Self::fresh(quad, Kind::Active, State::SynSent, iss);
        let syn = Segment {
            sno: tcb.snd.nxt,
            una: tcb.snd.nxt,
            len: 1,
            fin: false,
            syn: true,
            ack: false,
            retry: false,
            total_ret_time: 0,
            sent: None,
            mss: Some(tcb.rcv.mss),
        };
        tcb.segments.push_front(syn);
        tcb.snd.nxt = seq_add(tcb.snd.iss, 1);
        proof {
            lemma_created_wf(quad, iss);
            assert(tcb@.segments =~= TcbModel::syn_sent(quad, iss).segments);
        }
        tcb
    }
}

impl TCB {
    /// Whether the congestion window is still in slow start.
    pub fn is_slow_start(&self) -> (r: bool)
        ensures
            r == self@.is_slow_start(),
    {
        self.cwnd < self.ssthresh
    }

    /// Whether the outgoing buffer has no room left.
    pub fn is_outgoing_full(&self) -> (r: bool)
        ensures
            r == self@.is_outgoing_full(),
    {
        self.outgoing.len() >= self.capacity
    }

    /// Whether the local side has closed and all that it sent, the FIN
    /// included, is acknowledged.
    pub fn is_fin_acked(&self) -> (r: bool)
        ensures
            r == self@.is_fin_acked(),
    {
        self.outgoing.len() == 0 && self.segments.len() == 0 && self.snd.una == self.snd.nxt
            && self.write_closed
    }

    /// The data bytes that are sent and not acknowledged.
    pub fn sent_data_len(&self) -> (r: usize)
        requires
            self.wf(),
        ensures
            r == sent_data(self@.segments),
            r <= self@.outgoing.len(),
    {
        let mut sum: usize = 0;
        let mut i: usize = 0;
        proof {
            assert(self.segments@.subrange(0, 0) =~= Seq::empty());
        }
        while i < self.segments.len()
            invariant
                self.wf(),
                i <= self.segments@.len(),
                sum == sent_data(self.segments@.subrange(0, i as int)),
            decreases self.segments@.len() - i,
        {
            proof {
                lemma_sent_data_prefix(self.segments@, i as int);
                lemma_sent_data_prefix(self.segments@, i as int + 1);
            }
            let n = self.segments[i].unacked_data_len();
            sum = sum + n;
            i += 1;
        }
        proof {
            assert(self.segments@.subrange(0, i as int) =~= self.segments@);
        }
        sum
    }

    /// The data that is queued and not yet sent.
    pub fn available_data_len(&self) -> (r: usize)
        requires
            self.wf(),
        ensures
            r == self@.available(),
    {
        self.outgoing.len() - self.sent_data_len()
    }

    /// The sender's rule against silly windows.
    pub fn sws_allows_send(&self) -> (r: bool)
        requires
            self.wf(),
        ensures
            r == self@.sws_allows_send(),
    {
        let d: usize = self.available_data_len();
        let wnd: u32 = self.snd.wnd as u32;
        let u: usize = seq_sub(seq_add(self.snd.una, wnd), self.snd.nxt) as usize;
        let m: usize = if d <= u { d } else { u };
        let half: usize = (self.snd.max_wnd / 2) as usize;
        m >= self.snd.mss as usize || d <= u || m >= half
    }

    /// Closes the local side: ESTABLISHED becomes FIN-WAIT-1 and CLOSE-WAIT
    /// becomes LAST-ACK. Where no data waits to be sent, a FIN is queued by
    /// itself; otherwise the last data segment will carry it.
    pub fn close(&mut self)
        requires
            old(self).wf(),
            old(self)@.state == State::Estab || old(self)@.state == State::CloseWait,
        ensures
            final(self)@ == old(self)@.close(),
            final(self).wf(),
    {
        proof {
            lemma_close_wf(self@);
        }
        let available = self.available_data_len();
        if self.state == State::Estab {
            self.state = State::FinWait1;
        } else {
            self.state = State::LastAck;
        }
        self.write_closed = true;
        if available == 0 {
            let fin = Segment {
                sno: self.snd.nxt,
                una: self.snd.nxt,
                len: 1,
                fin: true,
                syn: false,
                ack: true,
                retry: false,
                total_ret_time: 0,
                sent: None,
                mss: None,
            };
            self.segments.push_back(fin);
            self.snd.nxt = seq_add(self.snd.nxt, 1);
        }
    }

    /// Takes at most `max` bytes from the front of the incoming buffer, and
    /// reopens the window once enough room has come free.
    pub fn recv(&mut self, max: usize) -> (data: Vec<u8>)
        requires
            old(self).wf(),
        ensures
            data@ == old(self)@.incoming.subrange(0, old(self)@.recv_len(max as int)),
            final(self)@ == old(self)@.recv(max as int),
            final(self).wf(),
    {
        proof {
            lemma_recv_wf(self@, max as int);
        }
        let len: usize = if max <= self.incoming.len() { max } else { self.incoming.len() };
        let data = copy_bytes(&self.incoming, 0, len);
        drain_front(&mut self.incoming, len);
        let free: usize = RECV_BUFFER - self.incoming.len();
        let mss: usize = self.snd.mss as usize;
        let bound: usize = if RECV_BUFFER / 2 <= mss { RECV_BUFFER / 2 } else { mss };
        if free - self.rcv.wnd as usize >= bound {
            self.rcv.wnd = free as u16;
        }
        data
    }

    /// Appends to the outgoing buffer as many bytes of `data` as there is
    /// room for, and returns how many. Nothing is taken once the local side
    /// has closed.
    pub fn write(&mut self, data: &[u8]) -> (n: usize)
        requires
            old(self).wf(),
        ensures
            n == old(self)@.write_len(data@.len() as int),
            final(self)@ == old(self)@.write(data@),
            final(self).wf(),
    {
        proof {
            lemma_write_wf(self@, data@);
        }
        if self.write_closed {
            proof {
                assert(data@.subrange(0, 0) =~= Seq::empty());
                assert(self.outgoing@ + Seq::<u8>::empty() =~= self.outgoing@);
            }
            return 0;
        }
        let room: usize = self.capacity - self.outgoing.len();
        let n: usize = if data.len() <= room { data.len() } else { room };
        let part = vstd::slice::slice_subrange(data, 0, n);
        push_bytes(&mut self.outgoing, part);
        n
    }

    /// Grows the congestion window for an acknowledgment of new data.
    pub fn congestion_control(&mut self)
        requires
            old(self)@.cwnd >= 1,
        ensures
            final(self)@ == old(self)@.grow_cwnd(),
    {
        let mss: u64 = self.snd.mss as u64;
        assert(0 <= mss * mss <= 0xffff_ffff) by (nonlinear_arith)
            requires
                0 <= mss <= 65535,
        ;
        let step: u64 = if self.is_slow_start() {
            mss
        } else {
            let q: u64 = (mss * mss) / (self.cwnd as u64);
            if q >= 1 { q } else { 1 }
        };
        let grown: u64 = self.cwnd as u64 + step;
        self.cwnd = if grown > u32::MAX as u64 { u32::MAX } else { grown as u32 };
    }

    /// Updates the round-trip estimator and the retransmission timeout with
    /// the sample `r`, in milliseconds.
    pub fn compute_rto(&mut self, r: u64)
        ensures
            final(self)@ == old(self)@.with_rtt(r),
            final(self)@.rto >= MIN_RTO,
    {
        let diff: u64 = if self.srtt >= r { self.srtt - r } else { r - self.srtt };
        if !self.rtt_measured {
            self.srtt = r;
            self.rttvar = r / 2;
            self.rtt_measured = true;
        } else {
            self.rttvar = ((3 * (self.rttvar as u128) + diff as u128) / 4) as u64;
            self.srtt = ((7 * (self.srtt as u128) + r as u128) / 8) as u64;
        }
        let spread: u128 = 4 * (self.rttvar as u128);
        let margin: u128 = if spread >= RTO_GRANULARITY as u128 { spread } else { RTO_GRANULARITY as u128 };
        let rto: u128 = self.srtt as u128 + margin;
        self.rto = if rto < MIN_RTO as u128 {
            MIN_RTO
        } else if rto > u64::MAX as u128 {
            u64::MAX
        } else {
            rto as u64
        };
    }

    /// Sets the time after which a data segment that is not acknowledged
    /// ends the connection, in milliseconds.
    pub fn set_r2(&mut self, r2: u64)
        ensures
            final(self)@ == (TcbModel { r2, ..old(self)@ }),
            old(self).wf() ==> final(self).wf(),
    {
        self.r2 = r2;
    }

    /// Sets the time after which a SYN that is not acknowledged ends the
    /// connection, in milliseconds.
    pub fn set_r2_syn(&mut self, r2_syn: u64)
        ensures
            final(self)@ == (TcbModel { r2_syn, ..old(self)@ }),
            old(self).wf() ==> final(self).wf(),
    {
        self.r2_syn = r2_syn;
    }
}

/// Removes the first `n` bytes of a buffer.
pub fn drain_front(v: &mut VecDeque<u8>, n: usize)
    requires
        n <= old(v)@.len(),
    ensures
        final(v)@ == old(v)@.subrange(n as int, old(v)@.len() as int),
{
    let mut rest = v.split_off(n);
    std::mem::swap(v, &mut rest);
}

/// Puts the bytes of `src` at the end of a buffer.
pub fn push_bytes(dst: &mut VecDeque<u8>, src: &[u8])
    ensures
        final(dst)@ == old(dst)@ + src@,
{
    let mut i: usize = 0;
    proof {
        assert(dst@ =~= old(dst)@ + src@.subrange(0, 0));
    }
    while i < src.len()
        invariant
            i <= src@.len(),
            dst@ == old(dst)@ + src@.subrange(0, i as int),
        decreases src@.len() - i,
    {
        dst.push_back(src[i]);
        i += 1;
        assert(dst@ =~= old(dst)@ + src@.subrange(0, i as int));
    }
    assert(src@.subrange(0, i as int) =~= src@);
}

/// The bytes from `from` up to `to` of a buffer, copied.
pub fn copy_bytes(v: &VecDeque<u8>, from: usize, to: usize) -> (r: Vec<u8>)
    requires
        from <= to <= v@.len(),
    ensures
        r@ == v@.subrange(from as int, to as int),
{
    let mut r: Vec<u8> = Vec::new();
    let mut i: usize = from;
    proof {
        assert(r@ =~= v@.subrange(from as int, from as int));
    }
    while i < to
        invariant
            from <= i <= to <= v@.len(),
            r@ == v@.subrange(from as int, i as int),
        decreases to - i,
    {
        r.push(v[i]);
        i += 1;
        assert(r@ =~= v@.subrange(from as int, i as int));
    }
    r
}

/// A copy of a buffer.
pub fn copy_buffer(v: &VecDeque<u8>) -> (r: VecDeque<u8>)
    ensures
        r@ == v@,
{
    let mut r: VecDeque<u8> = VecDeque::new();
    let mut i: usize = 0;
    proof {
        assert(r@ =~= v@.subrange(0, 0));
    }
    while i < v.len()
        invariant
            i <= v@.len(),
            r@ == v@.subrange(0, i as int),
        decreases v@.len() - i,
    {
        r.push_back(v[i]);
        i += 1;
        assert(r@ =~= v@.subrange(0, i as int));
    }
    assert(v@.subrange(0, i as int) =~= v@);
    r
}

/// The round-trip time that a covered segment yields at `now`.
pub fn sample_of(covered: Option<Segment>, now: u64) -> (r: Option<u64>)
    ensures
        r == rtt_sample(covered, now),
{
    match covered {
        Some(s) => match s.sent {
            Some(t) => if s.retry {
                None
            } else if now >= t {
                Some(now - t)
            } else {
                Some(0)
            },
            None => None,
        },
        None => None,
    }
}

impl TCB {
    /// Sets the retransmission timer anew from the head of the queue.
    pub fn rearm(&mut self)
        ensures
            final(self)@ == old(self)@.rearm(),
    {
        self.timeout = None;
        if self.segments.len() > 0 {
            let head = self.segments[0];
            if let Some(t) = head.sent {
                self.timeout = Some(t.saturating_add(self.rto));
            }
        }
    }

    /// Walks the retransmission queue with a new acknowledgment: segments
    /// that it covers leave the queue, one that it reaches into is trimmed,
    /// and the bytes acknowledged leave the outgoing buffer. Returns the
    /// round-trip sample of the last segment covered, if that segment was
    /// sent once only.
    pub fn process_ack(&mut self, ackno: u32, now: u64) -> (sample: Option<u64>)
        requires
            old(self).wf(),
            old(self)@.ack_is_new(ackno),
            old(self)@.state != State::Listen,
            !old(self)@.opening_state(),
        ensures
            final(self)@ == old(self)@.process_ack(ackno),
            sample == rtt_sample(acknowledge(old(self)@.segments, ackno).covered, now),
            final(self).wf(),
    {
        proof {
            lemma_process_ack_wf(self@, ackno);
            lemma_ack_ranges(self@, ackno);
            lemma_flight_bound(self@);
        }
        let (drained, covered) = walk_queue(
            &mut self.segments,
            ackno,
            Ghost(self.snd.una),
            Ghost(self.snd.nxt),
        );
        self.snd.una = ackno;
        drain_front(&mut self.outgoing, drained);
        self.rearm();
        sample_of(covered, now)
    }
}

/// Walks a retransmission queue that covers `una` to `nxt` with an
/// acknowledgment in that range. Returns how many data bytes were
/// acknowledged and the last segment covered.
fn walk_queue(
    segments: &mut VecDeque<Segment>,
    ackno: u32,
    Ghost(una): Ghost<u32>,
    Ghost(nxt): Ghost<u32>,
) -> (r: (usize, Option<Segment>))
    requires
        chained(old(segments)@, una, nxt),
        ahead(ackno, una) <= ahead(nxt, una),
    ensures
        final(segments)@ == acknowledge(old(segments)@, ackno).segments,
        r.0 == acknowledge(old(segments)@, ackno).drained,
        r.1 == acknowledge(old(segments)@, ackno).covered,
{
    let ghost s0 = segments@;
    let ghost mut from = una;
    let mut covered: Option<Segment> = None;
    let mut drained: usize = 0;
    proof {
        lemma_acknowledge(s0, una, nxt, ackno);
    }
    while segments.len() > 0
        invariant_except_break
            acknowledge(s0, ackno).segments == acknowledge(segments@, ackno).segments,
            acknowledge(s0, ackno).drained == drained + acknowledge(segments@, ackno).drained,
            acknowledge(s0, ackno).covered == (if acknowledge(segments@, ackno).covered.is_some() {
                acknowledge(segments@, ackno).covered
            } else {
                covered
            }),
            chained(segments@, from, nxt),
            ahead(ackno, from) <= ahead(nxt, from),
            0 <= acknowledge(segments@, ackno).drained,
        invariant
            0 <= acknowledge(s0, ackno).drained <= 65535,
        ensures
            acknowledge(s0, ackno).segments == segments@,
            acknowledge(s0, ackno).drained == drained,
            acknowledge(s0, ackno).covered == covered,
        decreases segments@.len(),
    {
        let ghost cur = segments@;
        let seg = segments[0];
        proof {
            lemma_acknowledge_step(cur, from, nxt, ackno);
        }
        let end = seg.end();
        if is_between_wrapped(seg.una, ackno, seq_add(end, 1)) {
            let acked: u32 = seq_sub(ackno, seg.una);
            drained = drained + acked as usize;
            let trimmed = Segment { una: ackno, ..seg };
            segments.pop_front();
            segments.push_front(trimmed);
            covered = Some(seg);
            proof {
                assert(segments@ =~= cur.update(0, trimmed));
            }
            break;
        } else if wrapping_lt(end, ackno) {
            let n = seg.unacked_data_len();
            drained = drained + n;
            segments.pop_front();
            covered = Some(seg);
            proof {
                assert(segments@ =~= cur.drop_first());
                from = seg.after();
            }
        } else {
            break;
        }
    }
    (drained, covered)
}

impl TCB {
    /// The two ends of the connection.
    pub fn quad(&self) -> (r: Quad)
        ensures
            r == self@.quad,
    {
        self.quad
    }

    /// How the connection was opened.
    pub fn kind(&self) -> (r: Kind)
        ensures
            r == self@.kind,
    {
        self.kind
    }

    /// The state of the connection.
    pub fn state(&self) -> (r: State)
        ensures
            r == self@.state,
    {
        self.state
    }

    /// The send sequence space.
    pub fn snd(&self) -> (r: SendSpace)
        ensures
            r == self@.snd,
    {
        self.snd
    }

    /// The receive sequence space.
    pub fn rcv(&self) -> (r: RecvSpace)
        ensures
            r == self@.rcv,
    {
        self.rcv
    }

    /// The smoothed round-trip time, in milliseconds.
    pub fn srtt(&self) -> (r: u64)
        ensures
            r == self@.srtt,
    {
        self.srtt
    }

    /// The round-trip time variance, in milliseconds.
    pub fn rttvar(&self) -> (r: u64)
        ensures
            r == self@.rttvar,
    {
        self.rttvar
    }

    /// The retransmission timeout, in milliseconds.
    pub fn rto(&self) -> (r: u64)
        ensures
            r == self@.rto,
    {
        self.rto
    }

    /// The congestion window.
    pub fn cwnd(&self) -> (r: u32)
        ensures
            r == self@.cwnd,
    {
        self.cwnd
    }

    /// The slow start threshold.
    pub fn ssthresh(&self) -> (r: u32)
        ensures
            r == self@.ssthresh,
    {
        self.ssthresh
    }

    /// When the retransmission timer runs out, if it runs.
    pub fn timeout(&self) -> (r: Option<u64>)
        ensures
            r == self@.timeout,
    {
        self.timeout
    }

    /// When TIME-WAIT ends, if it has begun.
    pub fn time_wait(&self) -> (r: Option<u64>)
        ensures
            r == self@.time_wait,
    {
        self.time_wait
    }

    /// When the probe timer runs out, if it runs.
    pub fn probe_timeout(&self) -> (r: Option<u64>)
        ensures
            r == self@.probe_timeout,
    {
        self.probe_timeout
    }

    /// Whether the connection was reset or given up.
    pub fn is_reset(&self) -> (r: bool)
        ensures
            r == self@.reset,
    {
        self.reset
    }

    /// Whether the peer has closed its side.
    pub fn is_read_closed(&self) -> (r: bool)
        ensures
            r == self@.read_closed,
    {
        self.read_closed
    }

    /// Whether the local side has closed.
    pub fn is_write_closed(&self) -> (r: bool)
        ensures
            r == self@.write_closed,
    {
        self.write_closed
    }

    /// How many bytes wait to be read.
    pub fn incoming_len(&self) -> (r: usize)
        ensures
            r == self@.incoming.len(),
    {
        self.incoming.len()
    }

    /// How many bytes are written and not yet acknowledged.
    pub fn outgoing_len(&self) -> (r: usize)
        ensures
            r == self@.outgoing.len(),
    {
        self.outgoing.len()
    }

    /// How many segments the retransmission queue holds.
    pub fn segments_len(&self) -> (r: usize)
        ensures
            r == self@.segments.len(),
    {
        self.segments.len()
    }

    /// The segment at index `i` of the retransmission queue, if there is
    /// one.
    pub fn segment(&self, i: usize) -> (r: Option<Segment>)
        ensures
            r == (if i < self@.segments.len() {
                Some(self@.segments[i as int])
            } else {
                None
            }),
    {
        if i < self.segments.len() {
            Some(self.segments[i])
        } else {
            None
        }
    }
}

} // verus!

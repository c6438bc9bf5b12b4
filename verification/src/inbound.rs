//! What a connection does with an inbound segment.

use std::collections::VecDeque;
use vstd::prelude::*;
use crate::codec::{emit, frames_of, write_ack, write_reset, write_synack, Header};
use crate::model::{DEFAULT_MSS, TWO_MSL};
use crate::seq::{acceptable, is_acceptable, is_between_wrapped, seq_add, seq_sub, wrapping_lt};
use crate::tcb::{copy_buffer, push_bytes, Action, TCB};
use crate::types::{Kind, Segment, State};
use crate::wellformed::{lemma_new_ack_wf, lemma_on_segment_wf};

verus! {

/// A copy of a retransmission queue.
fn copy_queue(q: &VecDeque<Segment>) -> (r: VecDeque<Segment>)
    ensures
        r@ == q@,
{
    let mut r: VecDeque<Segment> = VecDeque::new();
    let mut i: usize = 0;
    while i < q.len()
        invariant
            i <= q@.len(),
            r@ == q@.subrange(0, i as int),
        decreases q@.len() - i,
    {
        r.push_back(q[i]);
        i += 1;
        assert(r@ =~= q@.subrange(0, i as int));
    }
    assert(q@.subrange(0, i as int) =~= q@);
    r
}

impl Clone for TCB {
    fn clone(&self) -> (r: TCB)
        ensures
            r@ == self@,
    {
        let incoming = copy_buffer(&self.incoming);
        let outgoing = copy_buffer(&self.outgoing);
        let segments = copy_queue(&self.segments);
        proof {
            assert(incoming@ =~= self.incoming@);
            assert(outgoing@ =~= self.outgoing@);
        }
        TCB {
            quad: self.quad,
            kind: self.kind,
            state: self.state,
            reset: self.reset,
            write_closed: self.write_closed,
            read_closed: self.read_closed,
            time_wait: self.time_wait,
            snd: self.snd,
            rcv: self.rcv,
            srtt: self.srtt,
            rttvar: self.rttvar,
            rto: self.rto,
            rtt_measured: self.rtt_measured,
            timeout: self.timeout,
            r1: self.r1,
            r2: self.r2,
            r1_syn: self.r1_syn,
            r2_syn: self.r2_syn,
            cwnd: self.cwnd,
            ssthresh: self.ssthresh,
            probe_timeout: self.probe_timeout,
            incoming,
            outgoing,
            segments,
            capacity: self.capacity,
        }
    }
}

impl TCB {
    /// The acceptability test of an inbound segment that starts at the
    /// sequence number of `h` and occupies `seg_len` numbers.
    pub fn is_segment_valid(&self, h: &Header, seg_len: u32) -> (r: bool)
        ensures
            r == acceptable(h.sequence_number, seg_len, self@.rcv.nxt, self@.rcv.wnd),
    {
        is_acceptable(h.sequence_number, seg_len, self.rcv.nxt, self.rcv.wnd)
    }

    /// Whether `ackno` acknowledges something new.
    pub fn ack_is_new(&self, ackno: u32) -> (r: bool)
        ensures
            r == self@.ack_is_new(ackno),
    {
        is_between_wrapped(self.snd.una, ackno, seq_add(self.snd.nxt, 1))
    }

    /// A bare ACK of the current state, put at the end of `out`.
    fn send_ack(&self, out: &mut Vec<Vec<u8>>)
        ensures
            frames_of(*final(out)) == frames_of(*old(out)).push(self@.ack_of_state()),
    {
        emit(out, write_ack(&self.quad, self.snd.nxt, self.rcv.nxt, self.rcv.wnd));
    }

    /// A segment in the LISTEN state.
    fn on_listen(&mut self, h: &Header, data: &[u8], out: &mut Vec<Vec<u8>>) -> (action: Action)
        requires
            old(self).wf(),
            old(self)@.state == State::Listen,
            data@.len() <= 65535,
        ensures
            final(self)@ == old(self)@.on_listen(*h, data@.len() as int).tcb,
            action@ == old(self)@.on_listen(*h, data@.len() as int).action,
            frames_of(*final(out)) == frames_of(*old(out)) + old(self)@.on_listen(
                *h,
                data@.len() as int,
            ).frames,
    {
        proof {
            assert(frames_of(*out) + Seq::<Seq<u8>>::empty() =~= frames_of(*out));
        }
        if h.rst {
            return Action::Noop;
        }
        if h.ack {
            emit(out, write_reset(h, data));
            proof {
                assert(frames_of(*out) =~= frames_of(*old(out)) + old(self)@.on_listen(
                    *h,
                    data@.len() as int,
                ).frames);
            }
            return Action::Noop;
        }
        if h.syn {
            self.rcv.nxt = seq_add(h.sequence_number, 1);
            self.rcv.irs = h.sequence_number;
            self.snd.wnd = h.window_size;
            self.snd.max_wnd = h.window_size;
            self.snd.mss = match h.mss {
                Some(m) => m,
                None => DEFAULT_MSS,
            };
            let ghost before = self.segments@;
            self.segments.push_front(
                Segment {
                    sno: self.snd.nxt,
                    una: self.snd.nxt,
                    len: 1,
                    fin: false,
                    syn: true,
                    ack: true,
                    retry: false,
                    total_ret_time: 0,
                    sent: None,
                    mss: Some(self.rcv.mss),
                },
            );
            self.snd.nxt = seq_add(self.snd.iss, 1);
            self.state = State::SynRcvd;
            return Action::AddToPending(self.clone());
        }
        Action::Noop
    }

    /// Ends the handshake with the segment `h` that acknowledges the SYN.
    fn establish(&mut self, h: &Header)
        requires
            old(self)@.segments.len() > 0,
        ensures
            final(self)@ == old(self)@.established(*h),
    {
        self.state = State::Estab;
        self.snd.una = h.acknowledgment_number;
        self.snd.wnd = h.window_size;
        self.snd.wl1 = h.sequence_number;
        self.snd.wl2 = h.acknowledgment_number;
        if h.window_size > self.snd.max_wnd {
            self.snd.max_wnd = h.window_size;
        }
        self.capacity = h.window_size as usize;
        let ghost before = self.segments@;
        self.segments.pop_front();
        self.timeout = None;
        proof {
            assert(self.segments@ =~= before.drop_first());
        }
    }

    /// A segment in the SYN-SENT state.
    fn on_syn_sent(&mut self, h: &Header, out: &mut Vec<Vec<u8>>) -> (action: Action)
        requires
            old(self).wf(),
            old(self)@.state == State::SynSent,
        ensures
            final(self)@ == old(self)@.on_syn_sent(*h).tcb,
            action@ == old(self)@.on_syn_sent(*h).action,
            frames_of(*final(out)) == frames_of(*old(out)) + old(self)@.on_syn_sent(*h).frames,
    {
        let ghost start = frames_of(*out);
        proof {
            assert(start + Seq::<Seq<u8>>::empty() =~= start);
        }
        if h.ack {
            if !self.ack_is_new(h.acknowledgment_number) {
                let empty: Vec<u8> = Vec::new();
                emit(out, write_reset(h, empty.as_slice()));
                proof {
                    assert(frames_of(*out) =~= start + old(self)@.on_syn_sent(*h).frames);
                }
                return Action::Noop;
            }
            if h.rst {
                self.reset = true;
                return Action::Reset;
            }
        }
        if h.syn {
            let acked = self.ack_is_new(h.acknowledgment_number);
            self.rcv.nxt = seq_add(h.sequence_number, 1);
            self.rcv.irs = h.sequence_number;
            if acked {
                self.establish(h);
                emit(out, write_ack(&self.quad, self.snd.nxt, self.rcv.nxt, self.rcv.wnd));
                proof {
                    assert(frames_of(*out) =~= start + old(self)@.on_syn_sent(*h).frames);
                }
                return Action::IsEstablished;
            } else {
                self.state = State::SynRcvd;
                emit(out, write_synack(&self.quad, self.snd.nxt, self.rcv.nxt, self.rcv.wnd));
                proof {
                    assert(frames_of(*out) =~= start + old(self)@.on_syn_sent(*h).frames);
                }
                return Action::Noop;
            }
        }
        Action::Noop
    }

    /// Takes the window that the segment `h` offers, if `h` is not older
    /// than the segment that set the window last.
    fn update_window(&mut self, h: &Header, now: u64)
        ensures
            final(self)@ == old(self)@.update_window(*h, now),
    {
        let ack = h.acknowledgment_number;
        let seq = h.sequence_number;
        if is_between_wrapped(seq_sub(self.snd.una, 1), ack, seq_add(self.snd.nxt, 1)) {
            if wrapping_lt(self.snd.wl1, seq) || (self.snd.wl1 == seq && wrapping_lt(
                self.snd.wl2,
                seq_add(ack, 1),
            )) {
                self.snd.wnd = if h.window_size > self.snd.max_wnd {
                    self.snd.max_wnd
                } else {
                    h.window_size
                };
                self.snd.wl1 = seq;
                self.snd.wl2 = ack;
                if self.snd.wnd == 0 {
                    self.probe_timeout = Some(now.saturating_add(self.rto));
                } else {
                    self.probe_timeout = None;
                }
            }
        }
    }

    /// Takes an acknowledgment of new data.
    fn new_ack(&mut self, ackno: u32, now: u64)
        requires
            old(self).wf(),
            old(self)@.ack_is_new(ackno),
            old(self)@.state != State::Listen,
            !old(self)@.opening_state(),
        ensures
            final(self)@ == old(self)@.new_ack(ackno, now),
    {
        proof {
            lemma_new_ack_wf(self@, ackno, now);
        }
        self.congestion_control();
        let sample = self.process_ack(ackno, now);
        if let Some(r) = sample {
            self.compute_rto(r);
        }
        self.rearm();
    }

    /// Moves on from FIN-WAIT-1 or CLOSING once the own FIN is acknowledged.
    fn promote(&mut self, now: u64)
        ensures
            final(self)@ == old(self)@.promote(now),
    {
        if self.state == State::FinWait1 && self.is_fin_acked() {
            self.state = State::FinWait2;
        } else if self.state == State::Closing && self.is_fin_acked() {
            self.state = State::TimeWait;
            self.timeout = None;
            self.time_wait = Some(now.saturating_add(TWO_MSL));
        }
    }

    /// Takes the peer's FIN.
    fn take_fin(&mut self, now: u64)
        ensures
            final(self)@ == old(self)@.take_fin(now),
    {
        if self.state == State::SynRcvd || self.state == State::Estab {
            self.state = State::CloseWait;
            self.read_closed = true;
        } else if self.state == State::FinWait1 {
            if self.is_fin_acked() {
                self.state = State::TimeWait;
                self.timeout = None;
                self.time_wait = Some(now.saturating_add(TWO_MSL));
            } else {
                self.state = State::Closing;
            }
        } else if self.state == State::FinWait2 {
            self.state = State::TimeWait;
            self.timeout = None;
            self.time_wait = Some(now.saturating_add(TWO_MSL));
        } else if self.state == State::TimeWait {
            self.time_wait = Some(now.saturating_add(TWO_MSL));
        }
    }

    /// Takes the text of a segment and counts its FIN. Returns how many
    /// bytes were taken, whether the FIN was, and whether the segment is to
    /// be acknowledged at once.
    fn take_text(&mut self, h: &Header, data: &[u8]) -> (r: (usize, bool, bool))
        requires
            old(self)@.incoming.len() + old(self)@.rcv.wnd <= crate::model::RECV_BUFFER,
            data@.len() <= 65535,
        ensures
            final(self)@ == old(self)@.take_text(*h, data@),
            r.0 == old(self)@.text_taken(*h, data@.len() as int),
            r.1 == old(self)@.fin_taken(*h, data@.len() as int),
            r.2 == old(self)@.text_acked(*h, data@.len() as int),
    {
        let takes = self.state == State::Estab || self.state == State::FinWait1 || self.state
            == State::FinWait2;
        let offset: usize = seq_sub(self.rcv.nxt, h.sequence_number) as usize;
        if !takes || offset > data.len() {
            return (0, h.fin && !takes, false);
        }
        let new_len: usize = data.len() - offset;
        let wnd: usize = self.rcv.wnd as usize;
        let taken: usize = if new_len <= wnd { new_len } else { wnd };
        let fin: bool = h.fin && new_len <= wnd;
        push_bytes(&mut self.incoming, vstd::slice::slice_subrange(data, offset, offset + taken));
        let step: u32 = taken as u32 + if fin { 1u32 } else { 0u32 };
        self.rcv.nxt = seq_add(self.rcv.nxt, step);
        self.rcv.wnd = (wnd - taken) as u16;
        (taken, fin, taken > 0 || fin || wnd == 0)
    }

    /// What follows the acknowledgment in a synchronized state.
    fn on_text(
        &mut self,
        h: &Header,
        data: &[u8],
        now: u64,
        wake_up_writer: bool,
        out: &mut Vec<Vec<u8>>,
    ) -> (action: Action)
        requires
            old(self)@.incoming.len() + old(self)@.rcv.wnd <= crate::model::RECV_BUFFER,
            data@.len() <= 65535,
        ensures
            final(self)@ == old(self)@.on_text(*h, data@, now, wake_up_writer).tcb,
            action@ == old(self)@.on_text(*h, data@, now, wake_up_writer).action,
            frames_of(*final(out)) == frames_of(*old(out)) + old(self)@.on_text(
                *h,
                data@,
                now,
                wake_up_writer,
            ).frames,
    {
        let ghost start = frames_of(*out);
        self.promote(now);
        let wake_up_closer = self.state == State::FinWait2;
        let (taken, fin, acked) = self.take_text(h, data);
        if acked {
            self.send_ack(out);
        }
        let reader_state = self.state == State::Estab || self.state == State::SynRcvd;
        if fin {
            self.take_fin(now);
        }
        proof {
            let step = old(self)@.on_text(*h, data@, now, wake_up_writer);
            assert(frames_of(*out) =~= start + step.frames);
        }
        Action::Wakeup {
            wake_up_reader: taken > 0 || (fin && reader_state),
            wake_up_writer,
            wake_up_closer,
        }
    }

    /// An acceptable segment with ACK and without RST or SYN in a
    /// synchronized state.
    fn on_ack(&mut self, h: &Header, data: &[u8], now: u64, out: &mut Vec<Vec<u8>>) -> (action:
        Action)
        requires
            old(self).wf(),
            old(self)@.state != State::Listen,
            old(self)@.state != State::SynSent,
            data@.len() <= 65535,
        ensures
            final(self)@ == old(self)@.on_ack(*h, data@, now).tcb,
            action@ == old(self)@.on_ack(*h, data@, now).action,
            frames_of(*final(out)) == frames_of(*old(out)) + old(self)@.on_ack(*h, data@, now).frames,
    {
        let ghost start = frames_of(*out);
        let ghost step = self@.on_ack(*h, data@, now);
        let ack = h.acknowledgment_number;
        proof {
            assert(start + Seq::<Seq<u8>>::empty() =~= start);
        }
        if self.state == State::SynRcvd {
            if self.ack_is_new(ack) {
                self.establish(h);
                return Action::IsEstablished;
            }
            emit(out, write_reset(h, data));
            proof {
                assert(frames_of(*out) =~= start + step.frames);
            }
            return Action::Noop;
        }
        if self.state == State::LastAck {
            if self.ack_is_new(ack) {
                let _ = self.process_ack(ack, now);
            }
            if self.is_fin_acked() {
                return Action::DeleteTCB;
            }
            return self.on_text(h, data, now, false, out);
        }
        if self.state == State::TimeWait {
            self.time_wait = Some(now.saturating_add(TWO_MSL));
            self.send_ack(out);
            let action = self.on_text(h, data, now, false, out);
            proof {
                assert(frames_of(*out) =~= start + step.frames);
            }
            return action;
        }
        if self.ack_is_new(ack) {
            self.new_ack(ack, now);
            self.update_window(h, now);
            proof {
                lemma_new_ack_wf(old(self)@, ack, now);
            }
            return self.on_text(h, data, now, true, out);
        }
        if wrapping_lt(self.snd.nxt, ack) {
            self.send_ack(out);
            proof {
                assert(frames_of(*out) =~= start + step.frames);
            }
            return Action::Noop;
        }
        self.update_window(h, now);
        self.on_text(h, data, now, false, out)
    }

    /// A segment in a synchronized state.
    fn on_synchronized(&mut self, h: &Header, data: &[u8], now: u64, out: &mut Vec<Vec<u8>>) -> (action:
        Action)
        requires
            old(self).wf(),
            old(self)@.state != State::Listen,
            old(self)@.state != State::SynSent,
            data@.len() <= 65535,
        ensures
            final(self)@ == old(self)@.on_synchronized(*h, data@, now).tcb,
            action@ == old(self)@.on_synchronized(*h, data@, now).action,
            frames_of(*final(out)) == frames_of(*old(out)) + old(self)@.on_synchronized(
                *h,
                data@,
                now,
            ).frames,
    {
        let ghost start = frames_of(*out);
        let ghost step = self@.on_synchronized(*h, data@, now);
        proof {
            assert(start + Seq::<Seq<u8>>::empty() =~= start);
        }
        let syn: u32 = if h.syn { 1 } else { 0 };
        let fin: u32 = if h.fin { 1 } else { 0 };
        let seg_len: u32 = data.len() as u32 + syn + fin;
        if !self.is_segment_valid(h, seg_len) {
            if h.rst {
                return Action::Noop;
            }
            self.send_ack(out);
            proof {
                assert(frames_of(*out) =~= start + step.frames);
            }
            return Action::Noop;
        }
        if h.rst {
            if self.state == State::SynRcvd {
                if self.kind == Kind::Passive {
                    return Action::RemoveFromPending;
                } else {
                    return Action::ConnectionRefused;
                }
            } else if self.state == State::Estab || self.state == State::FinWait1 || self.state
                == State::FinWait2 || self.state == State::CloseWait {
                self.reset = true;
                return Action::Reset;
            }
        }
        if h.syn {
            if self.state == State::SynRcvd {
                if self.kind == Kind::Passive {
                    return Action::RemoveFromPending;
                }
            } else {
                emit(out, write_reset(h, data));
                self.reset = true;
                proof {
                    assert(frames_of(*out) =~= start + step.frames);
                }
                return Action::Reset;
            }
        }
        if !h.ack {
            return Action::Noop;
        }
        self.on_ack(h, data, now, out)
    }

    /// Processes one inbound segment with header `h` and payload `data` at
    /// `now`, in milliseconds, and puts the frames to transmit at the end of
    /// `out`. Returns what the connection table is to do.
    pub fn on_segment(&mut self, h: &Header, data: &[u8], now: u64, out: &mut Vec<Vec<u8>>) -> (action:
        Action)
        requires
            old(self).wf(),
            data@.len() <= 65535,
        ensures
            final(self)@ == old(self)@.on_segment(*h, data@, now).tcb,
            action@ == old(self)@.on_segment(*h, data@, now).action,
            frames_of(*final(out)) == frames_of(*old(out)) + old(self)@.on_segment(
                *h,
                data@,
                now,
            ).frames,
            final(self).wf(),
    {
        proof {
            lemma_on_segment_wf(self@, *h, data@, now);
        }
        if self.state == State::Listen {
            self.on_listen(h, data, out)
        } else if self.state == State::SynSent {
            self.on_syn_sent(h, out)
        } else {
            self.on_synchronized(h, data, now, out)
        }
    }
}

} // verus!

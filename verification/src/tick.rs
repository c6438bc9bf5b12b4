//! The timer service of a connection: retransmission, new transmissions,
//! the end of TIME-WAIT and the probe of a closed window.

use vstd::prelude::*;
use crate::codec::{emit, frames_of, write_data, MAX_PAYLOAD};
use crate::model::expired;
use crate::seq::{seq_add, seq_sub};
use crate::tcb::{copy_bytes, TCB};
use crate::types::Segment;
use crate::wellformed::{
    lemma_on_tick_wf, lemma_probe_wf, lemma_retransmit_wf, lemma_transmit_wf,
};

verus! {

/// Whether a timer set for `at` has run out at `now`.
pub fn is_expired(at: Option<u64>, now: u64) -> (r: bool)
    ensures
        r == expired(at, now),
{
    match at {
        Some(t) => now >= t,
        None => false,
    }
}

impl TCB {
    /// Serves the retransmission timer. If it has run out, the head of the
    /// queue is sent again with what of its data is not acknowledged, the
    /// timeout doubles and the timer starts again. Returns whether the head
    /// has now been retransmitted for longer than its threshold allows; the
    /// connection is then marked as reset.
    pub fn retransmit(&mut self, now: u64, out: &mut Vec<Vec<u8>>) -> (gave_up: bool)
        requires
            old(self).wf(),
        ensures
            final(self)@ == old(self)@.retransmit(now),
            gave_up == old(self)@.gives_up(now),
            frames_of(*final(out)) == (if old(self)@.retransmits(now) {
                frames_of(*old(out)).push(old(self)@.retransmission())
            } else {
                frames_of(*old(out))
            }),
            final(self).wf(),
    {
        proof {
            lemma_retransmit_wf(self@, now);
        }
        if !is_expired(self.timeout, now) || self.segments.len() == 0 {
            return false;
        }
        let seg = self.segments[0];
        let n = seg.unacked_data_len();
        let data = copy_bytes(&self.outgoing, 0, n);
        let frame = write_data(
            self.quad,
            seg.una,
            self.rcv.nxt,
            self.rcv.wnd,
            data.as_slice(),
            seg.fin,
            seg.syn,
            seg.ack,
            seg.mss,
        );
        emit(out, frame);
        let total = seg.total_ret_time.saturating_add(self.rto);
        let retried = Segment { retry: true, total_ret_time: total, sent: Some(now), ..seg };
        let ghost before = self.segments@;
        self.segments.pop_front();
        self.segments.push_front(retried);
        proof {
            assert(self.segments@ =~= before.update(0, retried));
        }
        self.rto = self.rto.saturating_add(self.rto);
        self.timeout = Some(now.saturating_add(self.rto));
        let limit = if seg.syn { self.r2_syn } else { self.r2 };
        if total > limit {
            self.reset = true;
            true
        } else {
            false
        }
    }

    /// Sends what is new: a segment of queued data, as long as the window
    /// and the rule against silly windows allow, with the FIN if the local
    /// side has closed and the segment takes the last byte; or else a flag
    /// that waits at the head of the queue and was never sent.
    pub fn transmit(&mut self, now: u64, out: &mut Vec<Vec<u8>>)
        requires
            old(self).wf(),
        ensures
            final(self)@ == old(self)@.transmit(now),
            frames_of(*final(out)) == frames_of(*old(out)) + old(self)@.transmission(),
            final(self).wf(),
    {
        proof {
            lemma_transmit_wf(self@, now);
            assert(frames_of(*out) + Seq::<Seq<u8>>::empty() =~= frames_of(*out));
        }
        let ghost start = frames_of(*out);
        if self.outgoing.len() > 0 {
            if self.sws_allows_send() {
                let sent_len: usize = self.sent_data_len();
                let available: usize = self.outgoing.len() - sent_len;
                let cwnd: usize = self.cwnd as usize;
                let wnd: usize = self.snd.wnd as usize;
                let mss: usize = self.snd.mss as usize;
                let a: usize = if available <= cwnd { available } else { cwnd };
                let to_be_sent: usize = if a <= wnd { a } else { wnd };
                let b: usize = if to_be_sent <= mss { to_be_sent } else { mss };
                let data_len: usize = if b <= MAX_PAYLOAD { b } else { MAX_PAYLOAD };
                if data_len > 0 {
                    let fin = self.write_closed && data_len == available;
                    let data = copy_bytes(&self.outgoing, sent_len, sent_len + data_len);
                    let frame = write_data(
                        self.quad,
                        self.snd.nxt,
                        self.rcv.nxt,
                        self.rcv.wnd,
                        data.as_slice(),
                        fin,
                        false,
                        true,
                        None,
                    );
                    emit(out, frame);
                    let extra: u32 = if fin { 1 } else { 0 };
                    let len: u32 = data_len as u32 + extra;
                    let seg = Segment {
                        sno: self.snd.nxt,
                        una: self.snd.nxt,
                        len,
                        fin,
                        syn: false,
                        ack: true,
                        retry: false,
                        total_ret_time: 0,
                        sent: Some(now),
                        mss: None,
                    };
                    self.timeout = Some(now.saturating_add(self.rto));
                    self.segments.push_back(seg);
                    self.snd.nxt = seq_add(self.snd.nxt, len);
                    proof {
                        assert(frames_of(*out) =~= start + old(self)@.transmission());
                    }
                }
            }
        } else if self.segments.len() > 0 {
            let seg = self.segments[0];
            if seg.sent.is_none() {
                let empty: Vec<u8> = Vec::new();
                let frame = write_data(
                    self.quad,
                    seg.sno,
                    self.rcv.nxt,
                    self.rcv.wnd,
                    empty.as_slice(),
                    seg.fin,
                    seg.syn,
                    seg.ack,
                    seg.mss,
                );
                emit(out, frame);
                let sent = Segment { sent: Some(now), ..seg };
                let ghost before = self.segments@;
                self.segments.pop_front();
                self.segments.push_front(sent);
                if self.timeout.is_none() {
                    self.timeout = Some(now.saturating_add(self.rto));
                }
                proof {
                    assert(self.segments@ =~= before.update(0, sent));
                    assert(frames_of(*out) =~= start + old(self)@.transmission());
                }
            }
        }
    }

    /// Serves the probe timer. If it has run out, one octet is sent just
    /// before the oldest unacknowledged number, the timeout doubles and the
    /// timer starts again.
    pub fn probe(&mut self, now: u64, out: &mut Vec<Vec<u8>>)
        requires
            old(self).wf(),
        ensures
            final(self)@ == old(self)@.probe(now),
            frames_of(*final(out)) == (if expired(old(self)@.probe_timeout, now) {
                frames_of(*old(out)).push(old(self)@.probe_frame())
            } else {
                frames_of(*old(out))
            }),
            final(self).wf(),
    {
        proof {
            lemma_probe_wf(self@, now);
        }
        if is_expired(self.probe_timeout, now) {
            let mut octet: Vec<u8> = Vec::new();
            octet.push(0u8);
            assert(octet@ =~= seq![0u8]);
            let frame = write_data(
                self.quad,
                seq_sub(self.snd.una, 1),
                self.rcv.nxt,
                self.rcv.wnd,
                octet.as_slice(),
                false,
                false,
                true,
                None,
            );
            emit(out, frame);
            self.rto = self.rto.saturating_add(self.rto);
            self.probe_timeout = Some(now.saturating_add(self.rto));
        }
    }

    /// Serves the timers of the connection at `now`, in milliseconds, and
    /// puts the frames to transmit at the end of `out`. Returns whether the
    /// connection is to be destroyed: a segment has been retransmitted for
    /// too long, or TIME-WAIT has ended.
    pub fn on_tick(&mut self, now: u64, out: &mut Vec<Vec<u8>>) -> (delete: bool)
        requires
            old(self).wf(),
        ensures
            final(self)@ == old(self)@.on_tick(now).tcb,
            delete == old(self)@.on_tick(now).delete,
            frames_of(*final(out)) == frames_of(*old(out)) + old(self)@.on_tick(now).frames,
            final(self).wf(),
    {
        proof {
            lemma_on_tick_wf(self@, now);
        }
        let ghost start = frames_of(*out);
        if self.retransmit(now, out) {
            proof {
                assert(frames_of(*out) =~= start + old(self)@.on_tick(now).frames);
            }
            return true;
        }
        self.transmit(now, out);
        if is_expired(self.time_wait, now) {
            proof {
                assert(frames_of(*out) =~= start + old(self)@.on_tick(now).frames);
            }
            return true;
        }
        self.probe(now, out);
        proof {
            assert(frames_of(*out) =~= start + old(self)@.on_tick(now).frames);
        }
        false
    }
}

} // verus!

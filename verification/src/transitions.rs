//! What a connection does with an inbound segment and with a tick of the
//! clock, stated on the model.

use vstd::prelude::*;
use crate::codec::{ack_frame, data_frame, reset_frame, synack_frame, Header, MAX_PAYLOAD};
use crate::model::{
    acknowledge, control_segment, deadline, expired, fresh_segment, least, rtt_sample, sent_data,
    ActionModel, Step, TcbModel, Tick, DEFAULT_MSS, TWO_MSL,
};
use crate::seq::{acceptable, advance, ahead, precedes};
use crate::types::{Kind, RecvSpace, Segment, SendSpace, State};

verus! {

impl TcbModel {
    /// The outcome that changes nothing and sends nothing.
    pub open spec fn quiet(self) -> Step {
        Step { tcb: self, action: ActionModel::Noop, frames: Seq::empty() }
    }

    /// The outcome that changes nothing and sends one frame.
    pub open spec fn reply(self, frame: Seq<u8>) -> Step {
        Step { tcb: self, action: ActionModel::Noop, frames: seq![frame] }
    }

    /// The connection with its flag of an abortive close set.
    pub open spec fn aborted(self) -> TcbModel {
        TcbModel { reset: true, ..self }
    }

    /// A segment in the LISTEN state. A reset is ignored, an acknowledgment
    /// is answered with a reset, and a SYN opens the connection: the peer's
    /// numbers and window are recorded, a SYN+ACK is queued, and the
    /// connection asks to be registered as pending.
    pub open spec fn on_listen(self, h: Header, data_len: int) -> Step {
        if h.rst {
            self.quiet()
        } else if h.ack {
            self.reply(reset_frame(h, data_len))
        } else if h.syn {
            let m = TcbModel {
                state: State::SynRcvd,
                rcv: RecvSpace {
                    nxt: advance(h.sequence_number, 1),
                    irs: h.sequence_number,
                    ..self.rcv
                },
                snd: SendSpace {
                    wnd: h.window_size,
                    max_wnd: h.window_size,
                    mss: match h.mss {
                        Some(m) => m,
                        None => DEFAULT_MSS,
                    },
                    nxt: advance(self.snd.iss, 1),
                    ..self.snd
                },
                segments: seq![control_segment(self.snd.nxt, false, true, true, Some(self.rcv.mss))]
                    + self.segments,
                ..self
            };
            Step { tcb: m, action: ActionModel::AddToPending(m), frames: Seq::empty() }
        } else {
            self.quiet()
        }
    }

    /// The connection once the peer has acknowledged its SYN with the
    /// segment `h`: the window is taken from `h`, the outgoing buffer gets
    /// that much room, the SYN leaves the queue and its timer stops.
    pub open spec fn established(self, h: Header) -> TcbModel {
        TcbModel {
            state: State::Estab,
            snd: SendSpace {
                una: h.acknowledgment_number,
                wnd: h.window_size,
                wl1: h.sequence_number,
                wl2: h.acknowledgment_number,
                max_wnd: if h.window_size > self.snd.max_wnd {
                    h.window_size
                } else {
                    self.snd.max_wnd
                },
                ..self.snd
            },
            capacity: h.window_size as nat,
            segments: self.segments.drop_first(),
            timeout: None,
            ..self
        }
    }

    /// A segment in the SYN-SENT state. An acknowledgment of anything but
    /// the SYN is answered with a reset; an acceptable one with RST aborts.
    /// A SYN records the peer's numbers. If its acknowledgment number
    /// acknowledges the own SYN, whether or not it bears the ACK flag, the
    /// oldest unacknowledged number moves to it and the connection is
    /// established and acknowledges. If not, both ends opened at once: the
    /// connection waits in SYN-RECEIVED and a SYN+ACK goes out. Both answers
    /// advertise the receive window.
    pub open spec fn on_syn_sent(self, h: Header) -> Step {
        if h.ack && !self.ack_is_new(h.acknowledgment_number) {
            self.reply(reset_frame(h, 0))
        } else if h.ack && h.rst {
            Step { tcb: self.aborted(), action: ActionModel::Reset, frames: Seq::empty() }
        } else if h.syn {
            let m = TcbModel {
                rcv: RecvSpace {
                    nxt: advance(h.sequence_number, 1),
                    irs: h.sequence_number,
                    ..self.rcv
                },
                ..self
            };
            if self.ack_is_new(h.acknowledgment_number) {
                let e = m.established(h);
                Step {
                    tcb: e,
                    action: ActionModel::IsEstablished,
                    frames: seq![ack_frame(e.quad, e.snd.nxt, e.rcv.nxt, e.rcv.wnd)],
                }
            } else {
                let r = TcbModel { state: State::SynRcvd, ..m };
                Step {
                    tcb: r,
                    action: ActionModel::Noop,
                    frames: seq![synack_frame(r.quad, r.snd.nxt, r.rcv.nxt, r.rcv.wnd)],
                }
            }
        } else {
            self.quiet()
        }
    }

    /// Whether a reset aborts the connection in this state.
    pub open spec fn reset_aborts(self) -> bool {
        self.state == State::Estab || self.state == State::FinWait1 || self.state
            == State::FinWait2 || self.state == State::CloseWait
    }

    /// Whether segment text is taken in this state.
    pub open spec fn takes_text(self) -> bool {
        self.state == State::Estab || self.state == State::FinWait1 || self.state
            == State::FinWait2
    }

    /// The window update that the segment `h` brings, if its acknowledgment
    /// is in range and it is not older than the segment that last updated the
    /// window. The window never exceeds the largest one seen; a closed window
    /// starts the probe timer, an open one stops it.
    pub open spec fn update_window(self, h: Header, now: u64) -> TcbModel {
        let newer = precedes(self.snd.wl1, h.sequence_number) || (self.snd.wl1
            == h.sequence_number && precedes(self.snd.wl2, advance(h.acknowledgment_number, 1)));
        if self.ack_in_range(h.acknowledgment_number) && newer {
            let wnd = if h.window_size > self.snd.max_wnd {
                self.snd.max_wnd
            } else {
                h.window_size
            };
            TcbModel {
                snd: SendSpace {
                    wnd,
                    wl1: h.sequence_number,
                    wl2: h.acknowledgment_number,
                    ..self.snd
                },
                probe_timeout: if wnd == 0 {
                    Some(deadline(now, self.rto))
                } else {
                    None
                },
                ..self
            }
        } else {
            self
        }
    }

    /// The connection after an acknowledgment of new data: the congestion
    /// window grows, the queue and the outgoing buffer give up what was
    /// acknowledged, a clean sample updates the timeout, and the timer is set
    /// anew.
    pub open spec fn new_ack(self, ack: u32, now: u64) -> TcbModel {
        let m = self.grow_cwnd().process_ack(ack);
        let n = match rtt_sample(acknowledge(self.segments, ack).covered, now) {
            Some(r) => m.with_rtt(r),
            None => m,
        };
        n.rearm()
    }

    /// The connection once its own FIN is known to be acknowledged or not:
    /// FIN-WAIT-1 moves on to FIN-WAIT-2, and CLOSING to TIME-WAIT with its
    /// timer started.
    pub open spec fn promote(self, now: u64) -> TcbModel {
        if self.state == State::FinWait1 && self.is_fin_acked() {
            TcbModel { state: State::FinWait2, ..self }
        } else if self.state == State::Closing && self.is_fin_acked() {
            TcbModel {
                state: State::TimeWait,
                timeout: None,
                time_wait: Some(deadline(now, TWO_MSL)),
                ..self
            }
        } else {
            self
        }
    }

    /// How many bytes at the start of a segment's data were received before.
    pub open spec fn text_offset(self, h: Header) -> int {
        ahead(self.rcv.nxt, h.sequence_number)
    }

    /// Whether the data of the segment continues the bytes received so far:
    /// the state takes text and the segment starts at or before the next
    /// byte expected and reaches it.
    pub open spec fn text_joins(self, h: Header, data_len: int) -> bool {
        self.takes_text() && self.text_offset(h) <= data_len
    }

    /// How many bytes of the segment's data are new.
    pub open spec fn text_new(self, h: Header, data_len: int) -> int {
        data_len - self.text_offset(h)
    }

    /// How many bytes of the segment's data are taken: the new ones, as far
    /// as the window reaches.
    pub open spec fn text_taken(self, h: Header, data_len: int) -> int {
        if self.text_joins(h, data_len) {
            least(self.text_new(h, data_len), self.rcv.wnd as int)
        } else {
            0
        }
    }

    /// Whether the FIN of the segment is taken: in a state that takes text,
    /// only if all the new data before it was taken.
    pub open spec fn fin_taken(self, h: Header, data_len: int) -> bool {
        h.fin && (self.takes_text() ==> self.text_joins(h, data_len) && self.text_new(h, data_len)
            <= self.rcv.wnd)
    }

    /// Whether the segment is acknowledged at once: its text or FIN moved
    /// the next number expected, or it probed a closed window.
    pub open spec fn text_acked(self, h: Header, data_len: int) -> bool {
        self.text_joins(h, data_len) && (self.text_taken(h, data_len) > 0 || self.fin_taken(
            h,
            data_len,
        ) || self.rcv.wnd == 0)
    }

    /// The connection after the text and the FIN of a segment were counted:
    /// the bytes taken join the incoming buffer, the next number expected
    /// moves past them and past a FIN taken, and the window shrinks by the
    /// bytes.
    pub open spec fn take_text(self, h: Header, data: Seq<u8>) -> TcbModel {
        if self.text_joins(h, data.len() as int) {
            let from = self.text_offset(h);
            let n = self.text_taken(h, data.len() as int);
            let fin: int = if self.fin_taken(h, data.len() as int) {
                1
            } else {
                0
            };
            TcbModel {
                incoming: self.incoming + data.subrange(from, from + n),
                rcv: RecvSpace {
                    nxt: advance(self.rcv.nxt, n + fin),
                    wnd: (self.rcv.wnd - n) as u16,
                    ..self.rcv
                },
                ..self
            }
        } else {
            self
        }
    }

    /// The connection after the peer's FIN was taken.
    pub open spec fn take_fin(self, now: u64) -> TcbModel {
        if self.state == State::SynRcvd || self.state == State::Estab {
            TcbModel { state: State::CloseWait, read_closed: true, ..self }
        } else if self.state == State::FinWait1 {
            if self.is_fin_acked() {
                TcbModel {
                    state: State::TimeWait,
                    timeout: None,
                    time_wait: Some(deadline(now, TWO_MSL)),
                    ..self
                }
            } else {
                TcbModel { state: State::Closing, ..self }
            }
        } else if self.state == State::FinWait2 {
            TcbModel {
                state: State::TimeWait,
                timeout: None,
                time_wait: Some(deadline(now, TWO_MSL)),
                ..self
            }
        } else if self.state == State::TimeWait {
            TcbModel { time_wait: Some(deadline(now, TWO_MSL)), ..self }
        } else {
            self
        }
    }

    /// What follows the acknowledgment in a synchronized state: the own FIN
    /// is checked, the text and the peer's FIN are taken, and whoever waits
    /// for what has changed is woken.
    pub open spec fn on_text(self, h: Header, data: Seq<u8>, now: u64, wake_up_writer: bool) -> Step {
        let p = self.promote(now);
        let len = data.len() as int;
        let t = p.take_text(h, data);
        let fin = p.fin_taken(h, len);
        let f = if fin {
            t.take_fin(now)
        } else {
            t
        };
        Step {
            tcb: f,
            action: ActionModel::Wakeup {
                wake_up_reader: p.text_taken(h, len) > 0 || (fin && (t.state == State::Estab
                    || t.state == State::SynRcvd)),
                wake_up_writer,
                wake_up_closer: p.state == State::FinWait2,
            },
            frames: if p.text_acked(h, len) {
                seq![t.ack_of_state()]
            } else {
                Seq::empty()
            },
        }
    }

    /// An acceptable segment with ACK and without RST or SYN in a
    /// synchronized state.
    pub open spec fn on_ack(self, h: Header, data: Seq<u8>, now: u64) -> Step {
        let ack = h.acknowledgment_number;
        if self.state == State::SynRcvd {
            if self.ack_is_new(ack) {
                Step {
                    tcb: self.established(h),
                    action: ActionModel::IsEstablished,
                    frames: Seq::empty(),
                }
            } else {
                self.reply(reset_frame(h, data.len() as int))
            }
        } else if self.state == State::LastAck {
            let m = if self.ack_is_new(ack) {
                self.process_ack(ack)
            } else {
                self
            };
            if m.is_fin_acked() {
                Step { tcb: m, action: ActionModel::DeleteTCB, frames: Seq::empty() }
            } else {
                m.on_text(h, data, now, false)
            }
        } else if self.state == State::TimeWait {
            let m = TcbModel { time_wait: Some(deadline(now, TWO_MSL)), ..self };
            let t = m.on_text(h, data, now, false);
            Step { frames: seq![m.ack_of_state()] + t.frames, ..t }
        } else if self.ack_is_new(ack) {
            self.new_ack(ack, now).update_window(h, now).on_text(h, data, now, true)
        } else if precedes(self.snd.nxt, ack) {
            self.reply(self.ack_of_state())
        } else {
            self.update_window(h, now).on_text(h, data, now, false)
        }
    }

    /// A segment in a synchronized state. In order: a segment that is not
    /// acceptable is answered with an ACK unless it is a reset; a reset ends
    /// a handshake or aborts the connection; a SYN is answered with a reset
    /// and aborts; a segment without ACK is dropped; the rest is processed.
    pub open spec fn on_synchronized(self, h: Header, data: Seq<u8>, now: u64) -> Step {
        let len = data.len() as int;
        if !acceptable(h.sequence_number, h.seg_len(len) as u32, self.rcv.nxt, self.rcv.wnd) {
            if h.rst {
                self.quiet()
            } else {
                self.reply(self.ack_of_state())
            }
        } else if h.rst && self.state == State::SynRcvd {
            Step {
                tcb: self,
                action: if self.kind == Kind::Passive {
                    ActionModel::RemoveFromPending
                } else {
                    ActionModel::ConnectionRefused
                },
                frames: Seq::empty(),
            }
        } else if h.rst && self.reset_aborts() {
            Step { tcb: self.aborted(), action: ActionModel::Reset, frames: Seq::empty() }
        } else if h.syn && self.state == State::SynRcvd && self.kind == Kind::Passive {
            Step { tcb: self, action: ActionModel::RemoveFromPending, frames: Seq::empty() }
        } else if h.syn && self.state != State::SynRcvd {
            Step {
                tcb: self.aborted(),
                action: ActionModel::Reset,
                frames: seq![reset_frame(h, len)],
            }
        } else if !h.ack {
            self.quiet()
        } else {
            self.on_ack(h, data, now)
        }
    }

    /// What an inbound segment with header `h` and payload `data` does to
    /// the connection at `now`.
    pub open spec fn on_segment(self, h: Header, data: Seq<u8>, now: u64) -> Step {
        if self.state == State::Listen {
            self.on_listen(h, data.len() as int)
        } else if self.state == State::SynSent {
            self.on_syn_sent(h)
        } else {
            self.on_synchronized(h, data, now)
        }
    }

    /// Whether the retransmission timer has run out on a queued segment.
    pub open spec fn retransmits(self, now: u64) -> bool {
        expired(self.timeout, now) && self.segments.len() > 0
    }

    /// The head of the queue after it was retransmitted at `now`.
    pub open spec fn retried_head(self, now: u64) -> Segment {
        Segment {
            retry: true,
            total_ret_time: deadline(self.segments[0].total_ret_time, self.rto),
            sent: Some(now),
            ..self.segments[0]
        }
    }

    /// Whether the head of the queue has been retransmitted for longer than
    /// its threshold allows, after the retransmission at `now`.
    pub open spec fn gives_up(self, now: u64) -> bool {
        self.retransmits(now) && self.retried_head(now).total_ret_time > (if self.segments[0].syn {
            self.r2_syn
        } else {
            self.r2
        })
    }

    /// The frame that retransmits the head of the queue: what of it is not
    /// acknowledged, from the front of the outgoing buffer, with its flags.
    pub open spec fn retransmission(self) -> Seq<u8> {
        let head = self.segments[0];
        data_frame(
            self.quad,
            head.una,
            self.rcv.nxt,
            self.rcv.wnd,
            self.outgoing.subrange(0, head.unacked_data()),
            head.fin,
            head.syn,
            head.ack,
            head.mss,
        )
    }

    /// The connection after the retransmission timer was served: the head is
    /// marked, the timeout doubles and the timer starts again; past the
    /// threshold the connection is marked as reset.
    pub open spec fn retransmit(self, now: u64) -> TcbModel {
        if self.retransmits(now) {
            let b = self.back_off();
            TcbModel {
                segments: self.segments.update(0, self.retried_head(now)),
                timeout: Some(deadline(now, b.rto)),
                reset: self.reset || self.gives_up(now),
                ..b
            }
        } else {
            self
        }
    }

    /// How many bytes the next new segment carries: what is queued and not
    /// sent, within the congestion window, the peer's window, the peer's
    /// segment size and what a datagram holds; nothing where the sender's
    /// rule against silly windows forbids it.
    pub open spec fn next_len(self) -> int {
        if self.outgoing.len() > 0 && self.sws_allows_send() {
            least(
                least(
                    least(least(self.available(), self.cwnd as int), self.snd.wnd as int),
                    self.snd.mss as int,
                ),
                MAX_PAYLOAD as int,
            )
        } else {
            0
        }
    }

    /// Whether the next new segment carries the FIN: the local side has
    /// closed and the segment takes the last byte queued.
    pub open spec fn next_fin(self) -> bool {
        self.write_closed && self.next_len() == self.available()
    }

    /// Whether the head of the queue is a flag that was never sent and that
    /// no data holds back.
    pub open spec fn sends_control(self) -> bool {
        self.outgoing.len() == 0 && self.segments.len() > 0 && self.segments[0].sent.is_none()
    }

    /// The frames of new transmissions at a tick: a segment of queued data,
    /// or a flag that waits at the head of the queue.
    pub open spec fn transmission(self) -> Seq<Seq<u8>> {
        if self.next_len() > 0 {
            let from = sent_data(self.segments);
            seq![
                data_frame(
                    self.quad,
                    self.snd.nxt,
                    self.rcv.nxt,
                    self.rcv.wnd,
                    self.outgoing.subrange(from, from + self.next_len()),
                    self.next_fin(),
                    false,
                    true,
                    None,
                ),
            ]
        } else if self.sends_control() {
            let head = self.segments[0];
            seq![
                data_frame(
                    self.quad,
                    head.sno,
                    self.rcv.nxt,
                    self.rcv.wnd,
                    Seq::empty(),
                    head.fin,
                    head.syn,
                    head.ack,
                    head.mss,
                ),
            ]
        } else {
            Seq::empty()
        }
    }

    /// The connection after its new transmissions at a tick.
    pub open spec fn transmit(self, now: u64) -> TcbModel {
        if self.next_len() > 0 {
            let n = self.next_len();
            let fin = self.next_fin();
            TcbModel {
                segments: self.segments.push(fresh_segment(self.snd.nxt, n, fin, now)),
                timeout: Some(deadline(now, self.rto)),
                snd: SendSpace {
                    nxt: advance(self.snd.nxt, n + if fin { 1int } else { 0 }),
                    ..self.snd
                },
                ..self
            }
        } else if self.sends_control() {
            TcbModel {
                segments: self.segments.update(0, Segment { sent: Some(now), ..self.segments[0] }),
                timeout: if self.timeout.is_none() {
                    Some(deadline(now, self.rto))
                } else {
                    self.timeout
                },
                ..self
            }
        } else {
            self
        }
    }

    /// The frame that probes a closed window: one octet just before the
    /// oldest unacknowledged number.
    pub open spec fn probe_frame(self) -> Seq<u8> {
        data_frame(
            self.quad,
            advance(self.snd.una, -1),
            self.rcv.nxt,
            self.rcv.wnd,
            seq![0u8],
            false,
            false,
            true,
            None,
        )
    }

    /// The connection after the probe timer was served: the timeout doubles
    /// and the timer starts again.
    pub open spec fn probe(self, now: u64) -> TcbModel {
        if expired(self.probe_timeout, now) {
            let b = self.back_off();
            TcbModel { probe_timeout: Some(deadline(now, b.rto)), ..b }
        } else {
            self
        }
    }

    /// What a tick of the clock at `now` does to the connection. In order:
    /// the retransmission timer, which may give the connection up; new
    /// transmissions; the end of TIME-WAIT, which deletes the connection; the
    /// probe of a closed window.
    pub open spec fn on_tick(self, now: u64) -> Tick {
        let r = self.retransmit(now);
        let first = if self.retransmits(now) {
            seq![self.retransmission()]
        } else {
            Seq::empty()
        };
        if self.gives_up(now) {
            Tick { tcb: r, delete: true, frames: first }
        } else {
            let t = r.transmit(now);
            let second = first + r.transmission();
            if expired(t.time_wait, now) {
                Tick { tcb: t, delete: true, frames: second }
            } else {
                Tick {
                    tcb: t.probe(now),
                    delete: false,
                    frames: if expired(t.probe_timeout, now) {
                        second.push(t.probe_frame())
                    } else {
                        second
                    },
                }
            }
        }
    }
}

} // verus!

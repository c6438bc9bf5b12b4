//! The connection state machine as mathematics: the state of a connection
//! with its buffers as sequences, its invariant, and the function from a
//! state and an event to the next state, the action for the connection table
//! and the frames to transmit.

use vstd::prelude::*;
use crate::codec::ack_frame;
use crate::seq::{advance, ahead, precedes, strictly_between};
use crate::types::{Kind, Quad, RecvSpace, Segment, SendSpace, State};

verus! {

/// Room of the receive buffer, and the window first offered.
pub const RECV_BUFFER: usize = 64240;

/// The maximum segment size assumed of a peer that names none.
pub const DEFAULT_MSS: u16 = 536;

/// Twice the maximum segment lifetime, in milliseconds.
pub const TWO_MSL: u64 = 240000;

/// The least retransmission timeout, and the first, in milliseconds.
pub const MIN_RTO: u64 = 1000;

/// The clock granularity that the retransmission timeout allows for.
pub const RTO_GRANULARITY: u64 = 100;

/// Advisory threshold on the retransmission time of a data segment.
pub const R1: u64 = 50000;

/// Threshold on the retransmission time of a data segment beyond which the
/// connection is given up.
pub const R2: u64 = 100000;

/// Advisory threshold on the retransmission time of a SYN.
pub const R1_SYN: u64 = 60000;

/// Threshold on the retransmission time of a SYN beyond which the connection
/// is given up.
pub const R2_SYN: u64 = 180000;

/// The first congestion window: four segments of the default size.
pub const INITIAL_CWND: u32 = 2144;

/// The state of one connection, its buffers held as sequences.
pub struct TcbModel {
    pub quad: Quad,
    pub kind: Kind,
    pub state: State,
    pub reset: bool,
    pub write_closed: bool,
    pub read_closed: bool,
    pub time_wait: Option<u64>,
    pub snd: SendSpace,
    pub rcv: RecvSpace,
    pub srtt: u64,
    pub rttvar: u64,
    pub rto: u64,
    pub rtt_measured: bool,
    pub timeout: Option<u64>,
    pub r1: u64,
    pub r2: u64,
    pub r1_syn: u64,
    pub r2_syn: u64,
    pub cwnd: u32,
    pub ssthresh: u32,
    pub probe_timeout: Option<u64>,
    /// Bytes received in order and not yet read.
    pub incoming: Seq<u8>,
    /// Bytes written and not yet acknowledged, the oldest first.
    pub outgoing: Seq<u8>,
    /// The retransmission queue, the oldest segment first.
    pub segments: Seq<Segment>,
    /// Room of the outgoing buffer.
    pub capacity: nat,
}

/// What the connection table is to do after an event.
pub enum ActionModel {
    Noop,
    AddToPending(TcbModel),
    RemoveFromPending,
    IsEstablished,
    Reset,
    DeleteTCB,
    Wakeup { wake_up_reader: bool, wake_up_writer: bool, wake_up_closer: bool },
    ConnectionRefused,
}

/// The outcome of one inbound segment.
pub struct Step {
    pub tcb: TcbModel,
    pub action: ActionModel,
    /// The frames to transmit, in order.
    pub frames: Seq<Seq<u8>>,
}

/// The outcome of one timer service.
pub struct Tick {
    pub tcb: TcbModel,
    /// Whether the connection is to be destroyed.
    pub delete: bool,
    /// The frames to transmit, in order.
    pub frames: Seq<Seq<u8>>,
}

/// The outcome of walking the retransmission queue with an acknowledgment.
pub struct Acked {
    /// The queue that is left.
    pub segments: Seq<Segment>,
    /// How many bytes leave the front of the outgoing buffer.
    pub drained: int,
    /// The last segment that the acknowledgment covered, in whole or in
    /// part, as it was before.
    pub covered: Option<Segment>,
}

/// The instant `ms` milliseconds after `now`, held at the largest instant.
pub open spec fn deadline(now: u64, ms: u64) -> u64 {
    if now + ms > u64::MAX {
        u64::MAX
    } else {
        (now + ms) as u64
    }
}

/// Whether a timer set for `at` has run out at `now`.
pub open spec fn expired(at: Option<u64>, now: u64) -> bool {
    at matches Some(t) && now >= t
}

/// The lesser of two numbers.
pub open spec fn least(a: int, b: int) -> int {
    if a <= b {
        a
    } else {
        b
    }
}

/// The data bytes of a queue that are sent and not acknowledged.
pub open spec fn sent_data(s: Seq<Segment>) -> int
    decreases s.len(),
{
    if s.len() == 0 {
        0
    } else {
        sent_data(s.drop_last()) + s.last().unacked_data()
    }
}

/// The sequence numbers that the flags of a queue occupy: one for a SYN at
/// its head, one for a FIN at its end.
pub open spec fn queue_control(s: Seq<Segment>) -> int {
    (if s.len() > 0 && s[0].syn { 1int } else { 0 }) + (if s.len() > 0 && s.last().fin { 1int } else { 0 })
}

/// The invariant of a retransmission queue that covers the sequence numbers
/// from `una` to `nxt`: every entry is well formed, entries follow one
/// another without gap, only the first may be acknowledged in part or carry
/// a SYN, only the last may carry a FIN, and the numbers covered are the
/// unacknowledged data bytes and the flags.
pub open spec fn chained(s: Seq<Segment>, una: u32, nxt: u32) -> bool {
    &&& forall|i: int| 0 <= i < s.len() ==> (#[trigger] s[i]).wf()
    &&& forall|i: int| 0 < i < s.len() ==> (#[trigger] s[i]).una == s[i].sno && !s[i].syn
    &&& forall|i: int| 0 <= i < s.len() - 1 ==> !(#[trigger] s[i]).fin && s[i + 1].sno == s[i].after()
    &&& s.len() > 0 ==> s[0].una == una && s.last().after() == nxt
    &&& ahead(nxt, una) == sent_data(s) + queue_control(s)
    &&& sent_data(s) <= 65535
}

/// The round-trip time that a covered segment yields at `now`: none if it was
/// ever retransmitted or never sent.
pub open spec fn rtt_sample(covered: Option<Segment>, now: u64) -> Option<u64> {
    match covered {
        Some(s) => match s.sent {
            Some(t) => if s.retry {
                None
            } else if now >= t {
                Some((now - t) as u64)
            } else {
                Some(0)
            },
            None => None,
        },
        None => None,
    }
}

/// Walks a queue from its head with the acknowledgment `ack`. A head that
/// `ack` falls inside is acknowledged in part and the walk ends; a head that
/// `ack` lies beyond leaves the queue and the walk goes on; any other head
/// ends the walk.
pub open spec fn acknowledge(s: Seq<Segment>, ack: u32) -> Acked
    decreases s.len(),
{
    if s.len() == 0 {
        Acked { segments: s, drained: 0, covered: None }
    } else if strictly_between(s[0].una, ack, s[0].after()) {
        Acked {
            segments: s.update(0, Segment { una: ack, ..s[0] }),
            drained: ahead(ack, s[0].una),
            covered: Some(s[0]),
        }
    } else if precedes(s[0].last(), ack) {
        let rest = acknowledge(s.drop_first(), ack);
        Acked {
            segments: rest.segments,
            drained: s[0].unacked_data() + rest.drained,
            covered: if rest.covered.is_some() {
                rest.covered
            } else {
                Some(s[0])
            },
        }
    } else {
        Acked { segments: s, drained: 0, covered: None }
    }
}

/// The queue entry of a segment that is transmitted for the first time at
/// `now`.
pub open spec fn fresh_segment(sno: u32, data_len: int, fin: bool, now: u64) -> Segment {
    Segment {
        sno,
        una: sno,
        len: (data_len + if fin { 1int } else { 0 }) as u32,
        fin,
        syn: false,
        ack: true,
        retry: false,
        total_ret_time: 0,
        sent: Some(now),
        mss: None,
    }
}

/// The queue entry of a flag that waits for its first transmission.
pub open spec fn control_segment(sno: u32, fin: bool, syn: bool, ack: bool, mss: Option<u16>) -> Segment {
    Segment { sno, una: sno, len: 1, fin, syn, ack, retry: false, total_ret_time: 0, sent: None, mss }
}

impl TcbModel {
    /// The state of a connection that has seen no segment yet.
    pub open spec fn fresh(quad: Quad, kind: Kind, state: State, iss: u32) -> TcbModel {
        TcbModel {
            quad,
            kind,
            state,
            reset: false,
            write_closed: false,
            read_closed: false,
            time_wait: None,
            snd: SendSpace {
                una: iss,
                nxt: iss,
                wnd: 0,
                urp: 0,
                wl1: 0,
                wl2: 0,
                iss,
                mss: DEFAULT_MSS,
                max_wnd: 0,
            },
            rcv: RecvSpace { nxt: 0, wnd: RECV_BUFFER as u16, urp: 0, irs: 0, mss: DEFAULT_MSS },
            srtt: 0,
            rttvar: 0,
            rto: MIN_RTO,
            rtt_measured: false,
            timeout: None,
            r1: R1,
            r2: R2,
            r1_syn: R1_SYN,
            r2_syn: R2_SYN,
            cwnd: INITIAL_CWND,
            ssthresh: u32::MAX,
            probe_timeout: None,
            incoming: Seq::empty(),
            outgoing: Seq::empty(),
            segments: Seq::empty(),
            capacity: 0,
        }
    }

    /// A passive connection that waits for a SYN.
    pub open spec fn listen(quad: Quad, iss: u32) -> TcbModel {
        Self::fresh(quad, Kind::Passive, State::Listen, iss)
    }

    /// An active connection whose SYN is queued.
    pub open spec fn syn_sent(quad: Quad, iss: u32) -> TcbModel {
        let m = Self::fresh(quad, Kind::Active, State::SynSent, iss);
        TcbModel {
            segments: seq![control_segment(iss, false, true, false, Some(m.rcv.mss))],
            snd: SendSpace { nxt: advance(iss, 1), ..m.snd },
            ..m
        }
    }

    /// Whether the local side has closed, as the state tells.
    pub open spec fn closing_state(self) -> bool {
        self.state == State::FinWait1 || self.state == State::FinWait2 || self.state
            == State::Closing || self.state == State::TimeWait || self.state == State::LastAck
    }

    /// Whether the connection is still shaking hands.
    pub open spec fn opening_state(self) -> bool {
        self.state == State::SynSent || self.state == State::SynRcvd
    }

    /// The invariant of a connection.
    pub open spec fn wf(self) -> bool {
        &&& chained(self.segments, self.snd.una, self.snd.nxt)
        &&& sent_data(self.segments) <= self.outgoing.len()
        &&& self.outgoing.len() <= self.capacity <= 65535
        &&& self.segments.len() > 0 && self.segments.last().fin ==> self.write_closed && sent_data(
            self.segments,
        ) == self.outgoing.len()
        &&& self.write_closed == self.closing_state()
        &&& self.state == State::Listen ==> self.segments.len() == 0 && self.snd.nxt == self.snd.iss
        &&& self.opening_state() ==> self.segments.len() == 1 && self.segments[0].syn
        &&& self.segments.len() > 0 && self.segments[0].syn ==> self.opening_state()
        &&& self.state == State::Listen || self.opening_state() ==> self.capacity == 0
        &&& self.timeout.is_some() ==> self.segments.len() > 0
        &&& self.rto >= MIN_RTO
        &&& self.cwnd >= 1
        &&& self.incoming.len() + self.rcv.wnd <= RECV_BUFFER
    }

    /// Whether the congestion window still grows by a segment for each
    /// acknowledgment.
    pub open spec fn is_slow_start(self) -> bool {
        self.cwnd < self.ssthresh
    }

    /// Whether the outgoing buffer has no room left.
    pub open spec fn is_outgoing_full(self) -> bool {
        self.outgoing.len() >= self.capacity
    }

    /// Whether the local side has closed and the peer has acknowledged all
    /// that was sent, the FIN included.
    pub open spec fn is_fin_acked(self) -> bool {
        self.outgoing.len() == 0 && self.segments.len() == 0 && self.snd.una == self.snd.nxt
            && self.write_closed
    }

    /// The data that is queued and not yet sent.
    pub open spec fn available(self) -> int {
        self.outgoing.len() - sent_data(self.segments)
    }

    /// The window the peer offers less what is in flight.
    pub open spec fn usable_window(self) -> int {
        ahead(advance(self.snd.una, self.snd.wnd as int), self.snd.nxt)
    }

    /// The sender's rule against silly windows: send when a full segment can
    /// go, when all that is queued can go, or when half of the largest window
    /// seen can go.
    pub open spec fn sws_allows_send(self) -> bool {
        let d = self.available();
        let u = self.usable_window();
        least(d, u) >= self.snd.mss || d <= u || least(d, u) >= self.snd.max_wnd / 2
    }

    /// Whether `ack` acknowledges something new: `una < ack <= nxt`.
    pub open spec fn ack_is_new(self, ack: u32) -> bool {
        strictly_between(self.snd.una, ack, advance(self.snd.nxt, 1))
    }

    /// Whether `ack` is in the range in which the window may be updated:
    /// `una <= ack <= nxt`.
    pub open spec fn ack_in_range(self, ack: u32) -> bool {
        strictly_between(advance(self.snd.una, -1), ack, advance(self.snd.nxt, 1))
    }

    /// The bare ACK of the current state.
    pub open spec fn ack_of_state(self) -> Seq<u8> {
        ack_frame(self.quad, self.snd.nxt, self.rcv.nxt, self.rcv.wnd)
    }

    /// The local side closes: the state moves on, and a FIN is queued by
    /// itself where no data waits to carry it.
    pub open spec fn close(self) -> TcbModel {
        let m = TcbModel {
            state: if self.state == State::Estab {
                State::FinWait1
            } else {
                State::LastAck
            },
            write_closed: true,
            ..self
        };
        if self.available() == 0 {
            TcbModel {
                segments: m.segments.push(control_segment(m.snd.nxt, true, false, true, None)),
                snd: SendSpace { nxt: advance(m.snd.nxt, 1), ..m.snd },
                ..m
            }
        } else {
            m
        }
    }

    /// How many bytes a read of at most `max` bytes takes.
    pub open spec fn recv_len(self, max: int) -> int {
        least(max, self.incoming.len() as int)
    }

    /// The state after a read of at most `max` bytes: the bytes leave the
    /// incoming buffer, and the window reopens to all free room once the
    /// room not yet offered reaches the lesser of half the buffer and the
    /// peer's segment size.
    pub open spec fn recv(self, max: int) -> TcbModel {
        let n = self.recv_len(max);
        let rest = self.incoming.subrange(n, self.incoming.len() as int);
        let free = RECV_BUFFER - rest.len();
        TcbModel {
            incoming: rest,
            rcv: RecvSpace {
                wnd: if free - self.rcv.wnd >= least(RECV_BUFFER as int / 2, self.snd.mss as int) {
                    free as u16
                } else {
                    self.rcv.wnd
                },
                ..self.rcv
            },
            ..self
        }
    }

    /// How many of `n` offered bytes a write takes: what there is room for,
    /// and nothing once the local side has closed.
    pub open spec fn write_len(self, n: int) -> int {
        if self.write_closed {
            0
        } else {
            least(n, self.capacity - self.outgoing.len())
        }
    }

    /// The state after a write of `data`: as many bytes as there is room for
    /// join the outgoing buffer.
    pub open spec fn write(self, data: Seq<u8>) -> TcbModel {
        TcbModel {
            outgoing: self.outgoing + data.subrange(0, self.write_len(data.len() as int)),
            ..self
        }
    }

    /// The congestion window after an acknowledgment of new data: a segment
    /// more in slow start, else the square of the segment size over the
    /// window and at least one byte more; never past the largest window.
    pub open spec fn grow_cwnd(self) -> TcbModel {
        let step: int = if self.is_slow_start() {
            self.snd.mss as int
        } else if (self.snd.mss * self.snd.mss) / (self.cwnd as int) >= 1 {
            (self.snd.mss * self.snd.mss) / (self.cwnd as int)
        } else {
            1
        };
        TcbModel { cwnd: least(self.cwnd + step, u32::MAX as int) as u32, ..self }
    }

    /// The estimator after the round-trip sample `r`. The first sample sets
    /// the smoothed time to `r` and the variance to half of it; a later one
    /// moves the variance a quarter towards the distance of `r` from the
    /// smoothed time and the smoothed time an eighth towards `r`. The timeout
    /// is the smoothed time plus the greater of the granularity and four
    /// times the variance, and at least a second.
    pub open spec fn with_rtt(self, r: u64) -> TcbModel {
        let diff: int = if self.srtt >= r {
            self.srtt - r
        } else {
            r - self.srtt
        };
        let rttvar: int = if self.rtt_measured {
            (3 * self.rttvar + diff) / 4
        } else {
            r as int / 2
        };
        let srtt: int = if self.rtt_measured {
            (7 * self.srtt + r) / 8
        } else {
            r as int
        };
        let margin: int = if 4 * rttvar >= RTO_GRANULARITY {
            4 * rttvar
        } else {
            RTO_GRANULARITY as int
        };
        let rto: int = if srtt + margin < MIN_RTO {
            MIN_RTO as int
        } else {
            least(srtt + margin, u64::MAX as int)
        };
        TcbModel { srtt: srtt as u64, rttvar: rttvar as u64, rto: rto as u64, rtt_measured: true, ..self }
    }

    /// The retransmission timer set anew from the head of the queue: off
    /// where the queue is empty or its head was never sent.
    pub open spec fn rearm(self) -> TcbModel {
        TcbModel {
            timeout: if self.segments.len() > 0 && self.segments[0].sent.is_some() {
                Some(deadline(self.segments[0].sent.unwrap(), self.rto))
            } else {
                None
            },
            ..self
        }
    }

    /// The state after the acknowledgment `ack` has walked the queue: the
    /// oldest unacknowledged number is `ack`, the bytes acknowledged have
    /// left the outgoing buffer, and the timer is set anew.
    pub open spec fn process_ack(self, ack: u32) -> TcbModel {
        let a = acknowledge(self.segments, ack);
        (TcbModel {
            snd: SendSpace { una: ack, ..self.snd },
            segments: a.segments,
            outgoing: self.outgoing.subrange(a.drained, self.outgoing.len() as int),
            ..self
        }).rearm()
    }

    /// The timeout doubled, held at the largest value.
    pub open spec fn back_off(self) -> TcbModel {
        TcbModel { rto: deadline(self.rto, self.rto), ..self }
    }
}

} // verus!

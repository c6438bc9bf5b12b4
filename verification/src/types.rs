//! The plain data of a connection: endpoints, protocol states, the two
//! sequence spaces and the entries of the retransmission queue.

use vstd::prelude::*;
use crate::seq::{advance, ahead, seq_add, seq_sub};

verus! {

/// The most data bytes that one segment carries: what an IPv4 datagram holds
/// besides its header and the longest TCP header that is sent.
pub const MAX_SEGMENT_DATA: u32 = 65491;

/// One end of a connection: an IPv4 address, as its big-endian number, and a
/// port.
#[derive(Debug, Clone, Copy, PartialEq, Eq, Hash, Structural)]
pub struct Dual {
    pub ipv4: u32,
    pub port: u16,
}

/// The two ends of a connection, the local one first.
#[derive(Debug, Clone, Copy, PartialEq, Eq, Hash, Structural)]
pub struct Quad {
    pub src: Dual,
    pub dst: Dual,
}

/// The state of a connection.
#[derive(Debug, Clone, Copy, PartialEq, Eq, Structural)]
pub enum State {
    Listen,
    SynRcvd,
    SynSent,
    Estab,
    FinWait1,
    FinWait2,
    Closing,
    TimeWait,
    CloseWait,
    LastAck,
}

/// The send sequence space.
#[derive(Debug, Clone, Copy, PartialEq, Eq, Structural)]
pub struct SendSpace {
    /// Oldest unacknowledged sequence number.
    pub una: u32,
    /// Next sequence number to send.
    pub nxt: u32,
    /// The window the peer offers.
    pub wnd: u16,
    /// Urgent pointer, always zero.
    pub urp: u16,
    /// Sequence number of the segment that last updated the window.
    pub wl1: u32,
    /// Acknowledgment number of the segment that last updated the window.
    pub wl2: u32,
    /// Initial send sequence number.
    pub iss: u32,
    /// The peer's maximum segment size.
    pub mss: u16,
    /// The largest window the peer has offered.
    pub max_wnd: u16,
}

/// The receive sequence space.
#[derive(Debug, Clone, Copy, PartialEq, Eq, Structural)]
pub struct RecvSpace {
    /// Next sequence number expected.
    pub nxt: u32,
    /// The window this end offers.
    pub wnd: u16,
    /// Urgent pointer, always zero.
    pub urp: u16,
    /// The peer's initial sequence number.
    pub irs: u32,
    /// This end's maximum segment size.
    pub mss: u16,
}

/// How a connection was opened.
#[derive(Debug, Clone, Copy, PartialEq, Eq, Structural)]
pub enum Kind {
    Active,
    Passive,
}

/// An entry of the retransmission queue: a run of sequence numbers that was
/// sent, or is about to be, and is not yet fully acknowledged.
#[derive(Debug, Clone, Copy, PartialEq, Eq, Structural)]
pub struct Segment {
    /// First sequence number of the segment.
    pub sno: u32,
    /// First sequence number of the segment that is not acknowledged.
    pub una: u32,
    /// Sequence numbers occupied: the data bytes, and one for a FIN or SYN.
    pub len: u32,
    pub fin: bool,
    pub syn: bool,
    pub ack: bool,
    /// Whether the segment was ever retransmitted.
    pub retry: bool,
    /// Milliseconds spent so far on retransmitting the segment.
    pub total_ret_time: u64,
    /// When the segment was last transmitted, if ever.
    pub sent: Option<u64>,
    /// The maximum segment size option that a SYN carries.
    pub mss: Option<u16>,
}

impl Segment {
    /// The invariant of a queue entry: it is not empty, its acknowledged
    /// prefix stays inside it, and a SYN travels alone.
    pub open spec fn wf(&self) -> bool {
        &&& 1 <= self.len
        &&& self.len - self.control() <= MAX_SEGMENT_DATA
        &&& ahead(self.una, self.sno) < self.len
        &&& self.syn ==> self.len == 1 && !self.fin
    }

    /// The last sequence number of the segment.
    pub open spec fn last(&self) -> u32 {
        advance(self.sno, self.len - 1)
    }

    /// The sequence number that follows the segment.
    pub open spec fn after(&self) -> u32 {
        advance(self.sno, self.len as int)
    }

    /// How many flags of the segment occupy a sequence number.
    pub open spec fn control(&self) -> int {
        (if self.fin { 1int } else { 0 }) + (if self.syn { 1int } else { 0 })
    }

    /// How many sequence numbers of the segment are not acknowledged.
    pub open spec fn unacked(&self) -> int {
        self.len - ahead(self.una, self.sno)
    }

    /// How many data bytes of the segment are not acknowledged.
    pub open spec fn unacked_data(&self) -> int {
        self.unacked() - self.control()
    }

    /// The last sequence number that the segment occupies.
    pub fn end(&self) -> (r: u32)
        ensures
            r == self.last(),
    {
        proof {
            crate::seq::lemma_advance_twice(self.sno, self.len as int, -1);
        }
        seq_sub(seq_add(self.sno, self.len), 1)
    }

    /// The number of sequence numbers not yet acknowledged, control flags
    /// included.
    pub fn unacked_len(&self) -> (r: usize)
        requires
            self.wf(),
        ensures
            r == self.unacked(),
            1 <= r <= self.len,
    {
        let done: u32 = seq_sub(self.una, self.sno);
        proof {
            crate::seq::lemma_ahead_range(self.una, self.sno);
        }
        (self.len - done) as usize
    }

    /// The number of data bytes not yet acknowledged.
    pub fn unacked_data_len(&self) -> (r: usize)
        requires
            self.wf(),
        ensures
            r == self.unacked_data(),
            r <= self.len,
    {
        let all: usize = self.unacked_len();
        let fin: usize = if self.fin { 1 } else { 0 };
        let syn: usize = if self.syn { 1 } else { 0 };
        all - fin - syn
    }
}

/// What `end` computes is the number just before the one that follows the
/// segment, and the unacknowledged part reaches from `una` to it.
pub proof fn lemma_segment_span(s: Segment)
    requires
        s.wf(),
    ensures
        ahead(s.last(), s.una) + 1 == s.unacked(),
        advance(s.una, s.unacked()) == s.after(),
        0 <= s.unacked_data() <= MAX_SEGMENT_DATA,
        1 <= s.unacked() <= MAX_SEGMENT_DATA + 1,
{
    crate::seq::lemma_ahead_range(s.una, s.sno);
    crate::seq::lemma_ahead_range(s.last(), s.una);
    crate::seq::lemma_ahead_advance(s.sno, s.una);
    crate::seq::lemma_advance_twice(s.sno, ahead(s.una, s.sno), s.unacked());
    crate::seq::lemma_advance_twice(s.sno, ahead(s.una, s.sno), s.unacked() - 1);
    crate::seq::lemma_advance_ahead(s.una, s.unacked() - 1);
}

} // verus!

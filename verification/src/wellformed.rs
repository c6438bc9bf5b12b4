//! The invariant of a connection holds at its creation and after every
//! event.

use vstd::prelude::*;
use crate::codec::Header;
use crate::model::{
    acknowledge, chained, control_segment, fresh_segment, queue_control, sent_data, TcbModel,
};
use crate::queue::{
    lemma_acknowledge, lemma_head_touched, lemma_sent_data_bounds, lemma_sent_data_front,
    lemma_sent_data_push,
};
use crate::seq::{
    advance, ahead, lemma_advance_ahead, lemma_advance_twice, lemma_ahead_advance,
    lemma_ahead_next, lemma_ahead_previous, lemma_ahead_range, lemma_ahead_split,
    lemma_between_by_distance, lemma_precedes_by_distance, precedes,
};
use crate::types::{lemma_segment_span, Segment, State};

verus! {

/// A flag that waits alone occupies one sequence number and holds no data.
pub proof fn lemma_control_segment(sno: u32, fin: bool, syn: bool, ack: bool, mss: Option<u16>)
    requires
        fin != syn,
    ensures
        control_segment(sno, fin, syn, ack, mss).wf(),
        control_segment(sno, fin, syn, ack, mss).unacked() == 1,
        control_segment(sno, fin, syn, ack, mss).unacked_data() == 0,
        control_segment(sno, fin, syn, ack, mss).after() == advance(sno, 1),
{
    lemma_ahead_range(sno, sno);
}

/// A queue of one flag covers one sequence number.
pub proof fn lemma_single_control(x: Segment, una: u32)
    requires
        x.wf(),
        x.una == x.sno,
        x.sno == una,
        x.len == 1,
        x.fin != x.syn,
    ensures
        chained(seq![x], una, advance(una, 1)),
        sent_data(seq![x]) == 0,
{
    let s = seq![x];
    lemma_ahead_range(una, una);
    lemma_advance_ahead(una, 1);
    assert(s.drop_last() =~= Seq::empty());
    assert(sent_data(s.drop_last()) == 0);
    assert(s.last() == x);
    assert(s[0] == x);
}

/// An empty queue covers nothing.
pub proof fn lemma_empty_queue(una: u32)
    ensures
        chained(Seq::<Segment>::empty(), una, una),
        sent_data(Seq::<Segment>::empty()) == 0,
{
    lemma_ahead_range(una, una);
}

/// A connection is well formed when it is created.
pub proof fn lemma_created_wf(quad: crate::types::Quad, iss: u32)
    ensures
        TcbModel::listen(quad, iss).wf(),
        TcbModel::syn_sent(quad, iss).wf(),
{
    lemma_empty_queue(iss);
    let m = TcbModel::syn_sent(quad, iss);
    lemma_control_segment(iss, false, true, false, Some(crate::model::DEFAULT_MSS));
    lemma_single_control(m.segments[0], iss);
    assert(m.segments =~= seq![m.segments[0]]);
}

/// A segment that joins the end of a queue, at the next number to send,
/// extends the queue by what it occupies.
pub proof fn lemma_chained_push(s: Seq<Segment>, una: u32, nxt: u32, x: Segment)
    requires
        chained(s, una, nxt),
        x.wf(),
        x.sno == nxt,
        x.una == nxt,
        !x.syn,
        s.len() > 0 ==> !s.last().fin && !s[0].syn,
        sent_data(s) + x.unacked_data() <= 65535,
    ensures
        chained(s.push(x), una, x.after()),
        sent_data(s.push(x)) == sent_data(s) + x.unacked_data(),
        x.after() == advance(nxt, x.len as int),
{
    let t = s.push(x);
    lemma_sent_data_push(s, x);
    lemma_sent_data_bounds(s);
    lemma_segment_span(x);
    lemma_ahead_range(nxt, nxt);
    lemma_ahead_range(nxt, una);
    assert(x.unacked() == x.len);
    assert forall|i: int| 0 <= i < t.len() implies (#[trigger] t[i]).wf() by {
        if i < s.len() {
            assert(t[i] == s[i]);
        }
    }
    assert forall|i: int| 0 < i < t.len() implies (#[trigger] t[i]).una == t[i].sno && !t[i].syn by {
        if i < s.len() {
            assert(t[i] == s[i]);
        }
    }
    assert forall|i: int| 0 <= i < t.len() - 1 implies !(#[trigger] t[i]).fin && t[i + 1].sno
        == t[i].after() by {
        assert(t[i] == s[i]);
        if i + 1 < s.len() {
            assert(t[i + 1] == s[i + 1]);
        } else {
            assert(s[i] == s.last());
        }
    }
    assert(t.last() == x);
    if s.len() > 0 {
        assert(t[0] == s[0]);
    } else {
        assert(una == nxt);
    }
    assert(queue_control(t) == queue_control(s) + x.control());
    // the distance from una to the new end
    lemma_advance_ahead(nxt, x.len as int);
    lemma_ahead_advance(una, nxt);
    lemma_advance_twice(una, ahead(nxt, una), x.len as int);
    lemma_advance_ahead(una, ahead(nxt, una) + x.len);
}

/// Closing keeps a connection well formed.
pub proof fn lemma_close_wf(m: TcbModel)
    requires
        m.wf(),
        m.state == State::Estab || m.state == State::CloseWait,
    ensures
        m.close().wf(),
{
    if m.available() == 0 {
        let x = control_segment(m.snd.nxt, true, false, true, None);
        lemma_control_segment(m.snd.nxt, true, false, true, None);
        lemma_chained_push(m.segments, m.snd.una, m.snd.nxt, x);
        assert(m.close().segments.last() == x);
        if m.segments.len() > 0 {
            assert(m.close().segments[0] == m.segments[0]);
        }
    }
}

/// Reading keeps a connection well formed.
pub proof fn lemma_recv_wf(m: TcbModel, max: int)
    requires
        m.wf(),
        0 <= max,
    ensures
        m.recv(max).wf(),
{
}

/// Writing keeps a connection well formed.
pub proof fn lemma_write_wf(m: TcbModel, data: Seq<u8>)
    requires
        m.wf(),
    ensures
        m.write(data).wf(),
{
}

/// What is in flight is short of half the circle.
pub proof fn lemma_flight_bound(m: TcbModel)
    requires
        m.wf(),
    ensures
        0 <= ahead(m.snd.nxt, m.snd.una) <= 65537,
        0 <= sent_data(m.segments) <= m.outgoing.len(),
{
    lemma_sent_data_bounds(m.segments);
}

/// An acknowledgment is new exactly when it lies past the oldest
/// unacknowledged number and not past the next to send; it is in range when
/// it may also lie at the oldest.
pub proof fn lemma_ack_ranges(m: TcbModel, ack: u32)
    requires
        m.wf(),
    ensures
        m.ack_is_new(ack) == (0 < ahead(ack, m.snd.una) <= ahead(m.snd.nxt, m.snd.una)),
        m.ack_in_range(ack) == (ahead(ack, m.snd.una) <= ahead(m.snd.nxt, m.snd.una)),
        precedes(m.snd.nxt, ack) ==> !m.ack_is_new(ack) && !m.ack_in_range(ack),
{
    let una = m.snd.una;
    let nxt = m.snd.nxt;
    let hi = advance(nxt, 1);
    let lo = advance(una, -1);
    lemma_flight_bound(m);
    lemma_ahead_next(una, nxt, 1);
    lemma_between_by_distance(una, ack, hi);
    lemma_ahead_range(ack, una);
    lemma_ahead_previous(una, ack);
    lemma_ahead_previous(una, hi);
    lemma_between_by_distance(lo, ack, hi);
    lemma_precedes_by_distance(nxt, ack);
    lemma_ahead_range(ack, nxt);
    if ahead(ack, una) <= ahead(nxt, una) {
        lemma_ahead_split(una, ack, nxt);
        lemma_ahead_range(nxt, ack);
    }
}

/// Processing a new acknowledgment keeps a connection well formed.
pub proof fn lemma_process_ack_wf(m: TcbModel, ack: u32)
    requires
        m.wf(),
        m.ack_is_new(ack),
        m.state != State::Listen,
        !m.opening_state(),
    ensures
        m.process_ack(ack).wf(),
        0 <= acknowledge(m.segments, ack).drained <= m.outgoing.len(),
{
    lemma_ack_ranges(m, ack);
    lemma_flight_bound(m);
    lemma_acknowledge(m.segments, m.snd.una, m.snd.nxt, ack);
    lemma_ahead_range(ack, m.snd.una);
}

/// Serving the retransmission timer keeps a connection well formed, and
/// what is retransmitted lies in the outgoing buffer.
pub proof fn lemma_retransmit_wf(m: TcbModel, now: u64)
    requires
        m.wf(),
    ensures
        m.retransmit(now).wf(),
        m.segments.len() > 0 ==> m.segments[0].wf() && 0 <= m.segments[0].unacked_data()
            <= m.outgoing.len() && m.segments[0].unacked_data() <= crate::codec::MAX_PAYLOAD,
{
    if m.segments.len() > 0 {
        lemma_head_touched(m.segments, m.snd.una, m.snd.nxt, m.retried_head(now));
        lemma_segment_span(m.segments[0]);
    }
}

/// New transmissions keep a connection well formed, and what is sent lies
/// in the outgoing buffer behind what is in flight.
pub proof fn lemma_transmit_wf(m: TcbModel, now: u64)
    requires
        m.wf(),
    ensures
        m.transmit(now).wf(),
        0 <= sent_data(m.segments) <= sent_data(m.segments) + m.next_len() <= m.outgoing.len(),
        m.next_len() <= crate::codec::MAX_PAYLOAD,
{
    lemma_flight_bound(m);
    if m.next_len() > 0 {
        let n = m.next_len();
        let fin = m.next_fin();
        let x = fresh_segment(m.snd.nxt, n, fin, now);
        lemma_ahead_range(m.snd.nxt, m.snd.nxt);
        assert(x.wf());
        assert(x.unacked_data() == n);
        lemma_chained_push(m.segments, m.snd.una, m.snd.nxt, x);
        let t = m.transmit(now);
        assert(t.segments.last() == x);
        if m.segments.len() > 0 {
            assert(t.segments[0] == m.segments[0]);
        }
    } else if m.sends_control() {
        lemma_head_touched(
            m.segments,
            m.snd.una,
            m.snd.nxt,
            Segment { sent: Some(now), ..m.segments[0] },
        );
    }
}

/// Serving the probe timer keeps a connection well formed.
pub proof fn lemma_probe_wf(m: TcbModel, now: u64)
    requires
        m.wf(),
    ensures
        m.probe(now).wf(),
{
}

/// A tick of the clock keeps a connection well formed.
pub proof fn lemma_on_tick_wf(m: TcbModel, now: u64)
    requires
        m.wf(),
    ensures
        m.on_tick(now).tcb.wf(),
{
    lemma_retransmit_wf(m, now);
    lemma_transmit_wf(m.retransmit(now), now);
    lemma_probe_wf(m.retransmit(now).transmit(now), now);
}

/// A connection that waits for the acknowledgment of its SYN has sent no
/// data, and only the number after its SYN acknowledges anything new.
pub proof fn lemma_opening(m: TcbModel, ack: u32)
    requires
        m.wf(),
        m.opening_state(),
    ensures
        sent_data(m.segments) == 0,
        m.outgoing.len() == 0,
        m.ack_is_new(ack) == (ack == m.snd.nxt),
        m.snd.una != m.snd.nxt,
        chained(m.segments.drop_first(), m.snd.nxt, m.snd.nxt),
        sent_data(m.segments.drop_first()) == 0,
        m.segments.drop_first().len() == 0,
{
    let s = m.segments;
    lemma_sent_data_front(s);
    assert(s.drop_first() =~= Seq::empty());
    lemma_segment_span(s[0]);
    lemma_ack_ranges(m, ack);
    lemma_ahead_range(ack, m.snd.una);
    lemma_ahead_range(m.snd.nxt, m.snd.una);
    lemma_empty_queue(m.snd.nxt);
    if ahead(ack, m.snd.una) == 1 {
        lemma_ahead_split(m.snd.una, ack, m.snd.nxt);
        lemma_ahead_range(m.snd.nxt, ack);
    }
}

/// A segment in the LISTEN state keeps a connection well formed.
pub proof fn lemma_on_listen_wf(m: TcbModel, h: Header, data_len: int)
    requires
        m.wf(),
        m.state == State::Listen,
    ensures
        m.on_listen(h, data_len).tcb.wf(),
{
    let x = control_segment(m.snd.nxt, false, true, true, Some(m.rcv.mss));
    lemma_control_segment(m.snd.nxt, false, true, true, Some(m.rcv.mss));
    lemma_ahead_range(m.snd.nxt, m.snd.una);
    lemma_single_control(x, m.snd.una);
    assert(seq![x] + m.segments =~= seq![x]);
}

/// The end of a handshake keeps a connection well formed.
pub proof fn lemma_established_wf(m: TcbModel, h: Header)
    requires
        m.wf(),
        m.opening_state(),
        m.ack_is_new(h.acknowledgment_number),
    ensures
        m.established(h).wf(),
{
    lemma_opening(m, h.acknowledgment_number);
}

/// A segment in the SYN-SENT state keeps a connection well formed.
pub proof fn lemma_on_syn_sent_wf(m: TcbModel, h: Header)
    requires
        m.wf(),
        m.state == State::SynSent,
    ensures
        m.on_syn_sent(h).tcb.wf(),
{
    let r = TcbModel {
        rcv: crate::types::RecvSpace {
            nxt: advance(h.sequence_number, 1),
            irs: h.sequence_number,
            ..m.rcv
        },
        ..m
    };
    if m.ack_is_new(h.acknowledgment_number) {
        lemma_established_wf(r, h);
    }
}

/// An acknowledgment of new data keeps a connection well formed.
pub proof fn lemma_new_ack_wf(m: TcbModel, ack: u32, now: u64)
    requires
        m.wf(),
        m.ack_is_new(ack),
        m.state != State::Listen,
        !m.opening_state(),
    ensures
        m.new_ack(ack, now).wf(),
        m.grow_cwnd().wf(),
{
    lemma_process_ack_wf(m.grow_cwnd(), ack);
}

/// Taking the text and the FIN of a segment keeps a connection well formed,
/// and what is taken lies in the segment.
pub proof fn lemma_on_text_wf(m: TcbModel, h: Header, data: Seq<u8>, now: u64, wake_up_writer: bool)
    requires
        m.wf(),
        m.state != State::Listen,
        !m.opening_state(),
        data.len() <= 65535,
    ensures
        m.promote(now).wf(),
        m.promote(now).take_text(h, data).wf(),
        m.on_text(h, data, now, wake_up_writer).tcb.wf(),
        0 <= m.promote(now).text_taken(h, data.len() as int) <= m.rcv.wnd,
        m.promote(now).text_joins(h, data.len() as int) ==> 0 <= m.promote(now).text_offset(h)
            <= m.promote(now).text_offset(h) + m.promote(now).text_taken(h, data.len() as int)
            <= data.len(),
{
    lemma_ahead_range(m.rcv.nxt, h.sequence_number);
}

/// An acceptable segment with ACK keeps a connection well formed.
pub proof fn lemma_on_ack_wf(m: TcbModel, h: Header, data: Seq<u8>, now: u64)
    requires
        m.wf(),
        m.state != State::Listen,
        m.state != State::SynSent,
        data.len() <= 65535,
    ensures
        m.on_ack(h, data, now).tcb.wf(),
{
    let ack = h.acknowledgment_number;
    if m.state == State::SynRcvd {
        if m.ack_is_new(ack) {
            lemma_established_wf(m, h);
        }
    } else if m.state == State::LastAck {
        if m.ack_is_new(ack) {
            lemma_process_ack_wf(m, ack);
            lemma_on_text_wf(m.process_ack(ack), h, data, now, false);
        } else {
            lemma_on_text_wf(m, h, data, now, false);
        }
    } else if m.state == State::TimeWait {
        let t = TcbModel { time_wait: Some(crate::model::deadline(now, crate::model::TWO_MSL)), ..m };
        lemma_on_text_wf(t, h, data, now, false);
    } else if m.ack_is_new(ack) {
        lemma_new_ack_wf(m, ack, now);
        lemma_on_text_wf(m.new_ack(ack, now).update_window(h, now), h, data, now, true);
    } else if precedes(m.snd.nxt, ack) {
    } else {
        lemma_on_text_wf(m.update_window(h, now), h, data, now, false);
    }
}

/// An inbound segment keeps a connection well formed.
pub proof fn lemma_on_segment_wf(m: TcbModel, h: Header, data: Seq<u8>, now: u64)
    requires
        m.wf(),
        data.len() <= 65535,
    ensures
        m.on_segment(h, data, now).tcb.wf(),
{
    if m.state == State::Listen {
        lemma_on_listen_wf(m, h, data.len() as int);
    } else if m.state == State::SynSent {
        lemma_on_syn_sent_wf(m, h);
    } else {
        lemma_on_ack_wf(m, h, data, now);
    }
}

/// Taking text keeps the name of a connection and does not lead to the
/// LISTEN state.
pub proof fn lemma_text_shape(m: TcbModel, h: Header, data: Seq<u8>, now: u64, w: bool)
    ensures
        m.on_text(h, data, now, w).tcb.quad == m.quad,
        m.state != State::Listen ==> m.on_text(h, data, now, w).tcb.state != State::Listen,
        m.on_text(h, data, now, w).action is Wakeup,
{
}

/// An acknowledgment of new data keeps the name and the state of a
/// connection.
pub proof fn lemma_new_ack_shape(m: TcbModel, h: Header, now: u64)
    ensures
        m.new_ack(h.acknowledgment_number, now).update_window(h, now).quad == m.quad,
        m.new_ack(h.acknowledgment_number, now).update_window(h, now).state == m.state,
        m.process_ack(h.acknowledgment_number).quad == m.quad,
        m.process_ack(h.acknowledgment_number).state == m.state,
        m.update_window(h, now).quad == m.quad,
        m.update_window(h, now).state == m.state,
{
}

/// An acceptable segment with ACK keeps the name of a connection, does not
/// lead to the LISTEN state and does not ask for registration.
pub proof fn lemma_ack_shape(m: TcbModel, h: Header, data: Seq<u8>, now: u64)
    requires
        m.state != State::Listen,
    ensures
        m.on_ack(h, data, now).tcb.quad == m.quad,
        m.on_ack(h, data, now).tcb.state != State::Listen,
        !(m.on_ack(h, data, now).action is AddToPending),
{
    let ack = h.acknowledgment_number;
    lemma_new_ack_shape(m, h, now);
    if m.state == State::SynRcvd {
    } else if m.state == State::LastAck {
        if m.ack_is_new(ack) {
            lemma_text_shape(m.process_ack(ack), h, data, now, false);
        } else {
            lemma_text_shape(m, h, data, now, false);
        }
    } else if m.state == State::TimeWait {
        let t = TcbModel { time_wait: Some(crate::model::deadline(now, crate::model::TWO_MSL)), ..m };
        lemma_text_shape(t, h, data, now, false);
    } else if m.ack_is_new(ack) {
        lemma_text_shape(m.new_ack(ack, now).update_window(h, now), h, data, now, true);
    } else if precedes(m.snd.nxt, ack) {
    } else {
        lemma_text_shape(m.update_window(h, now), h, data, now, false);
    }
}

/// An inbound segment keeps the name of a connection. Only a connection in
/// the LISTEN state asks to be registered, and it does so in the state
/// SYN-RECEIVED; no other connection enters the LISTEN state.
pub proof fn lemma_step_shape(m: TcbModel, h: Header, data: Seq<u8>, now: u64)
    ensures
        m.on_segment(h, data, now).tcb.quad == m.quad,
        m.state != State::Listen ==> m.on_segment(h, data, now).tcb.state != State::Listen && !(
        m.on_segment(h, data, now).action is AddToPending),
        m.state == State::Listen ==> (m.on_segment(h, data, now).action is Noop && m.on_segment(
            h,
            data,
            now,
        ).tcb == m) || (m.on_segment(h, data, now).action == crate::model::ActionModel::AddToPending(
            m.on_segment(h, data, now).tcb,
        ) && m.on_segment(h, data, now).tcb.state == State::SynRcvd),
{
    if m.state == State::Listen {
    } else if m.state == State::SynSent {
    } else {
        lemma_ack_shape(m, h, data, now);
    }
}

/// A tick keeps the name and the state of a connection.
pub proof fn lemma_tick_shape(m: TcbModel, now: u64)
    ensures
        m.on_tick(now).tcb.quad == m.quad,
        m.on_tick(now).tcb.state == m.state,
{
}

} // verus!

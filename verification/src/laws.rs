//! What holds of every connection: consequences of the invariant and of
//! the transition function that callers may rely on.

use vstd::prelude::*;
use crate::codec::Header;
use crate::model::{
    acknowledge, deadline, expired, least, queue_control, sent_data, TcbModel, MIN_RTO, TWO_MSL,
};
use crate::queue::{lemma_acknowledge, lemma_acknowledge_keeps_order, lemma_chained_empty};
use crate::seq::{
    acceptable, advance, ahead, lemma_advance_ahead, lemma_ahead_next, lemma_ahead_range,
    lemma_ahead_split, lemma_precedes_by_distance, lemma_window_start, precedes,
};
use crate::types::{Segment, State};
use crate::wellformed::{
    lemma_ack_ranges, lemma_flight_bound, lemma_process_ack_wf, lemma_transmit_wf,
};

verus! {

/// In every well-formed connection the oldest unacknowledged number does not
/// come after the next number to send.
pub proof fn lemma_una_not_after_nxt(m: TcbModel)
    requires
        m.wf(),
    ensures
        !precedes(m.snd.nxt, m.snd.una),
{
    lemma_flight_bound(m);
    lemma_precedes_by_distance(m.snd.nxt, m.snd.una);
    lemma_ahead_range(m.snd.una, m.snd.nxt);
    lemma_ahead_range(m.snd.nxt, m.snd.una);
}

/// A new segment without FIN that goes out because a full segment or all
/// that is queued fits the usable window leaves what is in flight inside the
/// window the peer offers, if it was inside before.
pub proof fn lemma_send_within_window(m: TcbModel, now: u64)
    requires
        m.wf(),
        ahead(m.snd.nxt, m.snd.una) <= m.snd.wnd,
        m.next_len() > 0,
        !m.next_fin(),
        least(m.available(), m.usable_window()) >= m.snd.mss || m.available() <= m.usable_window(),
    ensures
        ahead(m.transmit(now).snd.nxt, m.transmit(now).snd.una) <= m.transmit(now).snd.wnd,
{
    let una = m.snd.una;
    let nxt = m.snd.nxt;
    let edge = advance(una, m.snd.wnd as int);
    lemma_flight_bound(m);
    lemma_transmit_wf(m, now);
    lemma_advance_ahead(una, m.snd.wnd as int);
    lemma_ahead_split(una, nxt, edge);
    assert(m.usable_window() == m.snd.wnd - ahead(nxt, una));
    lemma_ahead_next(una, nxt, m.next_len());
}

/// In every well-formed connection the numbers in flight are the data bytes
/// of the queued segments that are not acknowledged and the flags queued,
/// and those bytes lie at the front of the outgoing buffer.
pub proof fn lemma_in_flight(m: TcbModel)
    requires
        m.wf(),
    ensures
        ahead(m.snd.nxt, m.snd.una) == sent_data(m.segments) + queue_control(m.segments),
        queue_control(m.segments) == 0 ==> ahead(m.snd.nxt, m.snd.una) == sent_data(m.segments),
        0 <= sent_data(m.segments) <= m.outgoing.len(),
        m.available() >= 0,
{
    lemma_flight_bound(m);
}

/// Where the bytes of the outgoing buffer stand in sequence space: the
/// first byte belongs to the head of the queue, which starts at the oldest
/// unacknowledged number, and the first byte not yet sent will be sent at the
/// next number to send.
pub proof fn lemma_buffer_positions(m: TcbModel, now: u64)
    requires
        m.wf(),
    ensures
        m.segments.len() > 0 ==> m.segments[0].una == m.snd.una,
        m.retransmits(now) ==> m.retransmission() == crate::codec::data_frame(
            m.quad,
            m.snd.una,
            m.rcv.nxt,
            m.rcv.wnd,
            m.outgoing.subrange(0, m.segments[0].unacked_data()),
            m.segments[0].fin,
            m.segments[0].syn,
            m.segments[0].ack,
            m.segments[0].mss,
        ),
        m.next_len() > 0 ==> m.transmission() == seq![
            crate::codec::data_frame(
                m.quad,
                m.snd.nxt,
                m.rcv.nxt,
                m.rcv.wnd,
                m.outgoing.subrange(
                    ahead(m.snd.nxt, m.snd.una),
                    ahead(m.snd.nxt, m.snd.una) + m.next_len(),
                ),
                m.next_fin(),
                false,
                true,
                None,
            ),
        ],
{
    lemma_flight_bound(m);
    if m.next_len() > 0 {
        lemma_transmit_wf(m, now);
        assert(m.available() > 0);
        assert(m.capacity > 0);
        assert(!m.opening_state());
        if m.segments.len() > 0 {
            assert(!m.segments.last().fin);
            assert(!m.segments[0].syn);
        }
        assert(queue_control(m.segments) == 0);
    }
}

/// Segment text continues the peer's byte stream. Let the segment carry the
/// stream's bytes from index `k` on, and let `p` bytes of the stream have
/// been taken so far, so that the segment starts `p - k` numbers before the
/// next one expected. Then what joins the incoming buffer are the stream's
/// bytes from `p` on, in order, without gap or repetition, and the next
/// number expected moves by their count and by one for a FIN taken.
pub proof fn lemma_text_in_order(m: TcbModel, h: Header, data: Seq<u8>, stream: Seq<u8>, k: int, p: int)
    requires
        0 <= k <= p,
        k + data.len() <= stream.len(),
        data == stream.subrange(k, k + data.len()),
        m.text_joins(h, data.len() as int),
        m.text_offset(h) == p - k,
        data.len() <= 65535,
    ensures
        ({
            let n = m.text_taken(h, data.len() as int);
            let fin: int = if m.fin_taken(h, data.len() as int) { 1 } else { 0 };
            &&& 0 <= n
            &&& p + n <= stream.len()
            &&& m.take_text(h, data).incoming == m.incoming + stream.subrange(p, p + n)
            &&& ahead(m.take_text(h, data).rcv.nxt, m.rcv.nxt) == n + fin
        }),
{
    let n = m.text_taken(h, data.len() as int);
    let from = m.text_offset(h);
    assert(data.subrange(from, from + n) =~= stream.subrange(p, p + n));
    let fin: int = if m.fin_taken(h, data.len() as int) { 1 } else { 0 };
    lemma_advance_ahead(m.rcv.nxt, n + fin);
}

/// A segment whose text does not continue the bytes received so far leaves
/// the incoming buffer as it is.
pub proof fn lemma_text_out_of_order(m: TcbModel, h: Header, data: Seq<u8>)
    requires
        !m.text_joins(h, data.len() as int),
    ensures
        m.take_text(h, data) == m,
{
}

/// Reads deliver the incoming buffer in order: what a read returns, followed
/// by what it leaves, is what was there.
pub proof fn lemma_read_in_order(m: TcbModel, max: int)
    requires
        0 <= max,
    ensures
        m.incoming.subrange(0, m.recv_len(max)) + m.recv(max).incoming == m.incoming,
{
    assert(m.incoming.subrange(0, m.recv_len(max)) + m.recv(max).incoming =~= m.incoming);
}

/// The retransmission timeout is at least a second after every round-trip
/// sample, and in every well-formed connection.
pub proof fn lemma_rto_floor(m: TcbModel, r: u64)
    ensures
        m.with_rtt(r).rto >= MIN_RTO,
        m.wf() ==> m.rto >= MIN_RTO,
{
}

/// No inbound segment shrinks the congestion window, and an acknowledgment
/// of new data in slow start grows it by the peer's segment size, as far as
/// the largest window.
pub proof fn lemma_cwnd_grows(m: TcbModel, h: Header, data: Seq<u8>, now: u64)
    requires
        m.wf(),
        data.len() <= 65535,
    ensures
        m.on_segment(h, data, now).tcb.cwnd >= m.cwnd,
        m.new_ack(h.acknowledgment_number, now).cwnd == least(
            m.cwnd + (if m.is_slow_start() {
                m.snd.mss as int
            } else if (m.snd.mss * m.snd.mss) / (m.cwnd as int) >= 1 {
                (m.snd.mss * m.snd.mss) / (m.cwnd as int)
            } else {
                1
            }),
            u32::MAX as int,
        ),
{
    assert((m.snd.mss * m.snd.mss) / (m.cwnd as int) >= 0) by (nonlinear_arith)
        requires
            m.cwnd >= 1,
            m.snd.mss >= 0,
    ;
}

/// A tick of the clock leaves the congestion window as it is.
pub proof fn lemma_cwnd_kept_by_tick(m: TcbModel, now: u64)
    ensures
        m.on_tick(now).tcb.cwnd == m.cwnd,
{
}

/// A retransmission doubles the timeout, as long as the double fits in the
/// 64 bits that hold it; beyond that the timeout stays at the largest value.
pub proof fn lemma_retransmission_backs_off(m: TcbModel, now: u64)
    requires
        m.retransmits(now),
    ensures
        m.rto <= u64::MAX / 2 ==> m.retransmit(now).rto == 2 * m.rto,
        m.rto > u64::MAX / 2 ==> m.retransmit(now).rto == u64::MAX,
        m.retransmit(now).rto >= m.rto,
        m.retransmit(now).segments[0].retry,
{
}

/// With its window closed, a connection in a synchronized state accepts a
/// segment at the next number expected only if the segment is empty; one
/// with data or a flag, unless it is a reset, is answered with a bare ACK
/// and changes nothing.
pub proof fn lemma_closed_window_reply(m: TcbModel, h: Header, data: Seq<u8>, now: u64)
    requires
        m.state != State::Listen,
        m.state != State::SynSent,
        m.rcv.wnd == 0,
        h.sequence_number == m.rcv.nxt,
        data.len() <= 65535,
    ensures
        acceptable(h.sequence_number, h.seg_len(data.len() as int) as u32, m.rcv.nxt, m.rcv.wnd) == (
        h.seg_len(data.len() as int) == 0),
        h.seg_len(data.len() as int) > 0 && !h.rst ==> m.on_segment(h, data, now) == m.reply(
            m.ack_of_state(),
        ),
{
}

/// An acknowledgment equal to the next number to send is in range, and new
/// if anything is in flight. One beyond it is answered with a bare ACK and
/// changes nothing.
pub proof fn lemma_ack_at_and_beyond_next(m: TcbModel, h: Header, data: Seq<u8>, now: u64)
    requires
        m.wf(),
        m.state == State::Estab || m.state == State::FinWait1 || m.state == State::FinWait2
            || m.state == State::CloseWait || m.state == State::Closing,
        data.len() <= 65535,
        acceptable(h.sequence_number, h.seg_len(data.len() as int) as u32, m.rcv.nxt, m.rcv.wnd),
        h.ack,
        !h.rst,
        !h.syn,
    ensures
        h.acknowledgment_number == m.snd.nxt ==> m.ack_in_range(h.acknowledgment_number) && (
        m.ack_is_new(h.acknowledgment_number) <==> m.snd.una != m.snd.nxt) && m.on_segment(
            h,
            data,
            now,
        ).action is Wakeup,
        precedes(m.snd.nxt, h.acknowledgment_number) ==> m.on_segment(h, data, now) == m.reply(
            m.ack_of_state(),
        ),
{
    lemma_ack_ranges(m, h.acknowledgment_number);
    lemma_ahead_range(m.snd.nxt, m.snd.una);
    lemma_precedes_by_distance(m.snd.nxt, m.snd.nxt);
    lemma_ahead_range(m.snd.nxt, m.snd.nxt);
}

/// A FIN behind more new data than the window takes is not taken: the
/// window is filled, the next number expected moves by the window only, and
/// the state stays what the acknowledgment made it.
pub proof fn lemma_fin_beyond_window(m: TcbModel, h: Header, data: Seq<u8>, now: u64, w: bool)
    requires
        m.promote(now).text_joins(h, data.len() as int),
        m.promote(now).text_new(h, data.len() as int) > m.rcv.wnd,
        h.fin,
    ensures
        !m.promote(now).fin_taken(h, data.len() as int),
        m.on_text(h, data, now, w).tcb.state == m.promote(now).state,
        m.on_text(h, data, now, w).tcb.rcv.nxt == advance(m.rcv.nxt, m.rcv.wnd as int),
        m.on_text(h, data, now, w).tcb.rcv.wnd == 0,
        !m.on_text(h, data, now, w).tcb.read_closed || m.read_closed,
{
}

/// What a new acknowledgment does to the send side, past the handshake.
/// The oldest unacknowledged number is the acknowledgment and the next to
/// send stays. The bytes that leave the front of the outgoing buffer are the
/// data bytes, SYN and FIN not counted, between the old oldest number and the
/// acknowledgment; the rest of the buffer stays in order. The segments that
/// leave the queue are those the acknowledgment lies beyond, the others stay
/// in order, and what they hold unacknowledged is what is left in flight.
pub proof fn lemma_process_ack(m: TcbModel, ack: u32)
    requires
        m.wf(),
        m.ack_is_new(ack),
        m.state != State::Listen,
        !m.opening_state(),
    ensures
        ({
            let p = m.process_ack(ack);
            let d = acknowledge(m.segments, ack).drained;
            let k = m.segments.len() - p.segments.len();
            &&& p.wf()
            &&& p.snd.una == ack
            &&& p.snd.nxt == m.snd.nxt
            &&& 0 <= d <= m.outgoing.len()
            &&& d == ahead(ack, m.snd.una) - (queue_control(m.segments) - queue_control(p.segments))
            &&& p.outgoing == m.outgoing.subrange(d, m.outgoing.len() as int)
            &&& sent_data(p.segments) == sent_data(m.segments) - d
            &&& ahead(p.snd.nxt, ack) == sent_data(p.segments) + queue_control(p.segments)
            &&& 0 <= k <= m.segments.len()
            &&& forall|j: int| 0 <= j < k ==> precedes((#[trigger] m.segments[j]).last(), ack)
            &&& forall|i: int| 0 < i < p.segments.len() ==> #[trigger] p.segments[i] == m.segments[k + i]
            &&& p.segments.len() > 0 ==> p.segments[0] == m.segments[k] || p.segments[0] == (Segment {
                una: ack,
                ..m.segments[k]
            })
        }),
{
    lemma_process_ack_wf(m, ack);
    lemma_ack_ranges(m, ack);
    lemma_flight_bound(m);
    lemma_acknowledge(m.segments, m.snd.una, m.snd.nxt, ack);
    lemma_acknowledge_keeps_order(m.segments, ack);
    lemma_ahead_split(m.snd.una, ack, m.snd.nxt);
}

/// A write leaves the send sequence space and the queue as they are, keeps
/// every byte of the outgoing buffer in its place, and puts behind them the
/// bytes that fit.
pub proof fn lemma_write_appends(m: TcbModel, data: Seq<u8>)
    requires
        m.wf(),
    ensures
        ({
            let w = m.write(data);
            let n = m.write_len(data.len() as int);
            &&& w.snd == m.snd
            &&& w.segments == m.segments
            &&& 0 <= n <= data.len()
            &&& !m.write_closed ==> n == least(data.len() as int, m.capacity - m.outgoing.len())
            &&& m.write_closed ==> n == 0
            &&& w.outgoing == m.outgoing + data.subrange(0, n)
            &&& w.outgoing.subrange(0, m.outgoing.len() as int) == m.outgoing
            &&& w.outgoing.len() <= m.capacity
        }),
{
    let w = m.write(data);
    assert(w.outgoing.subrange(0, m.outgoing.len() as int) =~= m.outgoing);
}

/// What a run of reads delivers, and the connection after it. Each read
/// takes at most as many bytes as its entry of `maxes` says.
pub open spec fn reads(m: TcbModel, maxes: Seq<int>) -> (Seq<u8>, TcbModel)
    decreases maxes.len(),
{
    if maxes.len() == 0 {
        (Seq::empty(), m)
    } else {
        let first = m.incoming.subrange(0, m.recv_len(maxes[0]));
        let rest = reads(m.recv(maxes[0]), maxes.drop_first());
        (first + rest.0, rest.1)
    }
}

/// A run of reads delivers the incoming buffer in order: what the reads
/// return, one after the other, followed by what the last one leaves, is what
/// was there at the start, without gap or repetition.
pub proof fn lemma_reads_in_order(m: TcbModel, maxes: Seq<int>)
    requires
        forall|i: int| 0 <= i < maxes.len() ==> 0 <= #[trigger] maxes[i],
    ensures
        reads(m, maxes).0 + reads(m, maxes).1.incoming == m.incoming,
    decreases maxes.len(),
{
    if maxes.len() == 0 {
        assert(Seq::<u8>::empty() + m.incoming =~= m.incoming);
    } else {
        let r = maxes.drop_first();
        assert forall|i: int| 0 <= i < r.len() implies 0 <= #[trigger] r[i] by {
            assert(r[i] == maxes[i + 1]);
        }
        lemma_reads_in_order(m.recv(maxes[0]), r);
        lemma_read_in_order(m, maxes[0]);
        let first = m.incoming.subrange(0, m.recv_len(maxes[0]));
        let rest = reads(m.recv(maxes[0]), r);
        assert((first + rest.0) + rest.1.incoming =~= first + (rest.0 + rest.1.incoming));
    }
}

/// The connection after the text of a run of segments was taken, one
/// segment after the other.
pub open spec fn takes(m: TcbModel, segments: Seq<(Header, Seq<u8>)>) -> TcbModel
    decreases segments.len(),
{
    if segments.len() == 0 {
        m
    } else {
        takes(m.take_text(segments[0].0, segments[0].1), segments.drop_first())
    }
}

/// A run of segments delivers the peer's byte stream in order. Let `base`
/// be the sequence number of the first byte of the stream, let `p` bytes
/// have been taken so far, and let each segment carry, without FIN, the
/// bytes of the stream from the index that `starts` gives for it, in any
/// order, with repetitions or with gaps. Then after the run the bytes that
/// have joined the incoming buffer are the bytes of the stream from `p` up to
/// some `q`, once each and in order, and the next number expected is that of
/// byte `q`. The stream is shorter than half the circle of sequence numbers.
pub proof fn lemma_texts_in_order(
    m: TcbModel,
    segments: Seq<(Header, Seq<u8>)>,
    starts: Seq<int>,
    stream: Seq<u8>,
    base: u32,
    p: int,
) -> (q: int)
    requires
        stream.len() < 0x8000_0000,
        0 <= p <= stream.len(),
        m.rcv.nxt == advance(base, p),
        starts.len() == segments.len(),
        forall|i: int|
            0 <= i < segments.len() ==> {
                &&& 0 <= #[trigger] starts[i]
                &&& starts[i] + segments[i].1.len() <= stream.len()
                &&& segments[i].1.len() <= 65535
                &&& segments[i].1 == stream.subrange(starts[i], starts[i] + segments[i].1.len())
                &&& segments[i].0.sequence_number == advance(base, starts[i])
                &&& !segments[i].0.fin
            },
    ensures
        p <= q <= stream.len(),
        takes(m, segments).incoming == m.incoming + stream.subrange(p, q),
        takes(m, segments).rcv.nxt == advance(base, q),
    decreases segments.len(),
{
    if segments.len() == 0 {
        assert(m.incoming + stream.subrange(p, p) =~= m.incoming);
        p
    } else {
        let h = segments[0].0;
        let data = segments[0].1;
        let k = starts[0];
        let rest = segments.drop_first();
        let next = m.take_text(h, data);
        assert forall|i: int| 0 <= i < rest.len() implies {
            &&& 0 <= #[trigger] starts.drop_first()[i]
            &&& starts.drop_first()[i] + rest[i].1.len() <= stream.len()
            &&& rest[i].1.len() <= 65535
            &&& rest[i].1 == stream.subrange(
                starts.drop_first()[i],
                starts.drop_first()[i] + rest[i].1.len(),
            )
            &&& rest[i].0.sequence_number == advance(base, starts.drop_first()[i])
            &&& !rest[i].0.fin
        } by {
            assert(starts.drop_first()[i] == starts[i + 1]);
            assert(rest[i] == segments[i + 1]);
        }
        if m.text_joins(h, data.len() as int) {
            if k > p {
                crate::seq::lemma_advance_twice(base, p, k - p);
                lemma_advance_ahead(m.rcv.nxt, k - p);
                lemma_ahead_range(m.rcv.nxt, h.sequence_number);
                lemma_ahead_range(h.sequence_number, m.rcv.nxt);
                assert(false);
            }
            crate::seq::lemma_advance_twice(base, k, p - k);
            lemma_advance_ahead(h.sequence_number, p - k);
            assert(m.text_offset(h) == p - k);
            lemma_text_in_order(m, h, data, stream, k, p);
            let n = m.text_taken(h, data.len() as int);
            crate::seq::lemma_advance_twice(base, p, n);
            let q = lemma_texts_in_order(next, rest, starts.drop_first(), stream, base, p + n);
            assert((m.incoming + stream.subrange(p, p + n)) + stream.subrange(p + n, q) =~= m.incoming
                + stream.subrange(p, q));
            q
        } else {
            lemma_texts_in_order(next, rest, starts.drop_first(), stream, base, p)
        }
    }
}

/// A tick asks for the deletion of a connection exactly when a segment has
/// been retransmitted for longer than its threshold allows, R2 or, for a
/// SYN, the threshold of SYNs, or when TIME-WAIT has ended. A connection
/// given up is marked as reset.
pub proof fn lemma_tick_deletes(m: TcbModel, now: u64)
    requires
        m.wf(),
    ensures
        m.on_tick(now).delete == (m.gives_up(now) || expired(m.time_wait, now)),
        m.retransmits(now) == (expired(m.timeout, now)),
        m.retransmits(now) ==> m.gives_up(now) == (deadline(m.segments[0].total_ret_time, m.rto) > (
        if m.segments[0].syn {
            m.r2_syn
        } else {
            m.r2
        })),
        m.retransmits(now) && m.segments[0].total_ret_time + m.rto <= u64::MAX ==> m.gives_up(now) == (
        m.segments[0].total_ret_time + m.rto > (if m.segments[0].syn {
            m.r2_syn
        } else {
            m.r2
        })),
        m.gives_up(now) ==> m.on_tick(now).tcb.reset,
        !m.retransmits(now) ==> !m.gives_up(now),
{
}

/// A tick that retransmits at least doubles the timeout, as long as the
/// double fits in the 64 bits that hold it, and holds it at the largest
/// value beyond. The timeout stays at least a second, and the congestion
/// window stays as it is.
pub proof fn lemma_tick_backs_off(m: TcbModel, now: u64)
    requires
        m.wf(),
        m.retransmits(now),
    ensures
        m.rto <= u64::MAX / 2 ==> m.on_tick(now).tcb.rto >= 2 * m.rto,
        m.rto > u64::MAX / 2 ==> m.on_tick(now).tcb.rto == u64::MAX,
        m.rto <= u64::MAX / 2 && !expired(m.probe_timeout, now) ==> m.on_tick(now).tcb.rto == 2
            * m.rto,
        m.on_tick(now).tcb.rto >= MIN_RTO,
        m.on_tick(now).tcb.cwnd == m.cwnd,
{
}

/// The interval between successive probes of a closed window doubles: a
/// probe sets the next one twice the timeout ahead, and the probe after that
/// four times, as long as the instants fit in the 64 bits that hold them.
pub proof fn lemma_probe_backs_off(m: TcbModel, now: u64, later: u64)
    requires
        expired(m.probe_timeout, now),
        later + 4 * m.rto <= u64::MAX,
        now <= later,
    ensures
        m.probe(now).probe_timeout == Some((now + 2 * m.rto) as u64),
        m.probe(now).rto == 2 * m.rto,
        expired(m.probe(now).probe_timeout, later) ==> m.probe(now).probe(later).probe_timeout
            == Some((later + 2 * (2 * m.rto)) as u64),
{
}

/// The acknowledgment of the own FIN in the CLOSING state ends the close:
/// the connection enters TIME-WAIT with its timer set twice the maximum
/// segment lifetime ahead, held at the largest instant where that does not
/// fit; the retransmission timer is off, the queue is empty and nothing is
/// in flight.
pub proof fn lemma_closing_ack(m: TcbModel, h: Header, now: u64)
    requires
        m.wf(),
        m.state == State::Closing,
        m.segments.len() > 0,
        m.segments.last().fin,
        h.ack,
        !h.rst,
        !h.syn,
        !h.fin,
        h.sequence_number == m.rcv.nxt,
        h.acknowledgment_number == m.snd.nxt,
    ensures
        ({
            let t = m.on_segment(h, Seq::empty(), now).tcb;
            &&& t.state == State::TimeWait
            &&& t.time_wait == Some(deadline(now, TWO_MSL))
            &&& now + TWO_MSL <= u64::MAX ==> t.time_wait == Some((now + TWO_MSL) as u64)
            &&& t.timeout.is_none()
            &&& t.segments.len() == 0
            &&& t.outgoing.len() == 0
            &&& t.snd.una == t.snd.nxt
            &&& t.snd.nxt == m.snd.nxt
        }),
{
    let ack = h.acknowledgment_number;
    let data = Seq::<u8>::empty();
    lemma_window_start(m.rcv.nxt, m.rcv.wnd);
    assert(h.seg_len(data.len() as int) == 0);
    lemma_flight_bound(m);
    crate::queue::lemma_chained_rest(m.segments, m.snd.una, m.snd.nxt);
    crate::types::lemma_segment_span(m.segments[0]);
    lemma_ack_ranges(m, ack);
    assert(m.ack_is_new(ack));
    let g = m.grow_cwnd();
    lemma_process_ack_wf(g, ack);
    lemma_acknowledge(m.segments, m.snd.una, m.snd.nxt, ack);
    let a = acknowledge(m.segments, ack);
    lemma_chained_empty(a.segments, ack);
    let p = g.process_ack(ack);
    assert(p.segments.len() == 0);
    assert(p.outgoing.len() == 0);
    let n = m.new_ack(ack, now);
    assert(n.segments.len() == 0 && n.outgoing.len() == 0 && n.snd.una == ack && n.snd.nxt == ack);
    assert(n.state == State::Closing && n.write_closed);
    let u = n.update_window(h, now);
    assert(u.segments.len() == 0 && u.outgoing.len() == 0 && u.snd.una == u.snd.nxt);
    assert(u.is_fin_acked());
    assert(u.promote(now).state == State::TimeWait);
}

} // verus!

//! Facts about retransmission queues: how the data in flight changes when a
//! segment joins or leaves, and what an acknowledgment leaves behind.

use vstd::prelude::*;
use crate::model::{acknowledge, chained, queue_control, sent_data};
use crate::seq::{
    advance, ahead, lemma_advance_ahead, lemma_advance_twice, lemma_ahead_advance,
    lemma_ahead_range, lemma_ahead_split, lemma_precedes_by_distance, precedes, strictly_between,
};
use crate::types::{lemma_segment_span, Segment};

verus! {

/// A segment that joins the end of a queue adds its data.
pub proof fn lemma_sent_data_push(s: Seq<Segment>, x: Segment)
    ensures
        sent_data(s.push(x)) == sent_data(s) + x.unacked_data(),
{
    assert(s.push(x).drop_last() =~= s);
}

/// The data in flight of a queue is that of its head and of the rest.
pub proof fn lemma_sent_data_front(s: Seq<Segment>)
    requires
        s.len() > 0,
    ensures
        sent_data(s) == s[0].unacked_data() + sent_data(s.drop_first()),
    decreases s.len(),
{
    if s.len() == 1 {
        assert(s.drop_last() =~= Seq::empty());
        assert(s.drop_first() =~= Seq::empty());
    } else {
        lemma_sent_data_front(s.drop_last());
        assert(s.drop_last().drop_first() =~= s.drop_first().drop_last());
        assert(s.drop_last()[0] == s[0]);
        assert(s.drop_first().last() == s.last());
    }
}

/// A head that changes takes its old data out and brings its new data in.
pub proof fn lemma_sent_data_head(s: Seq<Segment>, x: Segment)
    requires
        s.len() > 0,
    ensures
        sent_data(s.update(0, x)) == sent_data(s) - s[0].unacked_data() + x.unacked_data(),
{
    lemma_sent_data_front(s);
    lemma_sent_data_front(s.update(0, x));
    assert(s.update(0, x).drop_first() =~= s.drop_first());
}

/// The data in flight of well-formed segments is not negative.
pub proof fn lemma_sent_data_bounds(s: Seq<Segment>)
    requires
        forall|i: int| 0 <= i < s.len() ==> (#[trigger] s[i]).wf(),
    ensures
        0 <= sent_data(s),
    decreases s.len(),
{
    if s.len() > 0 {
        lemma_sent_data_bounds(s.drop_last());
        lemma_segment_span(s.last());
    }
}

/// The data in flight of the first `i` segments is part of that of all.
pub proof fn lemma_sent_data_prefix(s: Seq<Segment>, i: int)
    requires
        forall|j: int| 0 <= j < s.len() ==> (#[trigger] s[j]).wf(),
        0 <= i <= s.len(),
    ensures
        0 <= sent_data(s.subrange(0, i)) <= sent_data(s),
        i < s.len() ==> sent_data(s.subrange(0, i + 1)) == sent_data(s.subrange(0, i))
            + s[i].unacked_data(),
    decreases s.len(),
{
    lemma_sent_data_bounds(s.subrange(0, i));
    if i == s.len() {
        assert(s.subrange(0, i) =~= s);
    } else {
        lemma_sent_data_prefix(s.drop_last(), i);
        lemma_segment_span(s.last());
        assert(s.drop_last().subrange(0, i) =~= s.subrange(0, i));
        assert(s.subrange(0, i + 1).drop_last() =~= s.subrange(0, i));
        assert(s.subrange(0, i + 1).last() == s[i]);
    }
}

/// Where a segment's unacknowledged part ends, seen from its first
/// unacknowledged number.
pub proof fn lemma_segment_reach(h: Segment)
    requires
        h.wf(),
    ensures
        ahead(h.after(), h.una) == h.unacked(),
        ahead(h.last(), h.una) == h.unacked() - 1,
        h.last() == advance(h.una, h.unacked() - 1),
        h.after() == advance(h.una, h.unacked()),
{
    lemma_segment_span(h);
    lemma_ahead_range(h.last(), h.una);
    lemma_advance_ahead(h.una, h.unacked());
    lemma_ahead_advance(h.una, h.last());
}

/// A queue without its head is a queue from where the head ended.
pub proof fn lemma_chained_rest(s: Seq<Segment>, una: u32, nxt: u32)
    requires
        chained(s, una, nxt),
        s.len() > 0,
    ensures
        chained(s.drop_first(), s[0].after(), nxt),
        ahead(nxt, una) == s[0].unacked() + ahead(nxt, s[0].after()),
        s[0].unacked() <= ahead(nxt, una) <= 65537,
        queue_control(s) == s[0].control() + queue_control(s.drop_first()),
{
    let r = s.drop_first();
    let h = s[0];
    lemma_sent_data_front(s);
    lemma_segment_span(h);
    lemma_segment_reach(h);
    assert forall|i: int| 0 <= i < r.len() implies (#[trigger] r[i]).wf() by {
        assert(r[i] == s[i + 1]);
    }
    lemma_sent_data_bounds(r);
    assert forall|i: int| 0 < i < r.len() implies (#[trigger] r[i]).una == r[i].sno && !r[i].syn by {
        assert(r[i] == s[i + 1]);
    }
    assert forall|i: int| 0 <= i < r.len() - 1 implies !(#[trigger] r[i]).fin && r[i + 1].sno
        == r[i].after() by {
        assert(r[i] == s[i + 1]);
        assert(r[i + 1] == s[i + 2]);
    }
    if r.len() > 0 {
        assert(r[0] == s[1]);
        assert(r.last() == s.last());
        assert(!h.fin);
        assert(s[1].sno == h.after());
        assert(s[1].una == s[1].sno);
        assert(!s[1].syn);
    } else {
        assert(s.last() == h);
        assert(h.after() == nxt);
    }
    assert(queue_control(s) == h.control() + queue_control(r));
    assert(h.unacked() <= ahead(nxt, una));
    lemma_ahead_split(una, h.after(), nxt);
}

/// A head acknowledged in part, up to `ack`, is a well-formed head from
/// `ack`.
pub proof fn lemma_partial_head(h: Segment, ack: u32)
    requires
        h.wf(),
        0 < ahead(ack, h.una) < h.unacked(),
    ensures
        strictly_between(h.una, ack, h.after()),
        (Segment { una: ack, ..h }).wf(),
        (Segment { una: ack, ..h }).unacked() == h.unacked() - ahead(ack, h.una),
        !h.syn,
{
    let d = ahead(ack, h.una);
    let k = ahead(h.una, h.sno);
    lemma_segment_reach(h);
    lemma_segment_span(h);
    lemma_precedes_by_distance(h.una, ack);
    lemma_precedes_by_distance(ack, h.after());
    lemma_ahead_split(h.una, ack, h.after());
    lemma_ahead_advance(h.una, ack);
    lemma_ahead_advance(h.sno, h.una);
    lemma_ahead_range(h.una, h.sno);
    lemma_advance_twice(h.sno, k, d);
    lemma_advance_ahead(h.sno, k + d);
}

/// A head that the acknowledgment `ack` reaches past is fully acknowledged.
pub proof fn lemma_full_head(h: Segment, ack: u32)
    requires
        h.wf(),
        h.unacked() <= ahead(ack, h.una) <= 0x7fff_ffff,
    ensures
        !strictly_between(h.una, ack, h.after()),
        precedes(h.last(), ack),
        ahead(ack, h.after()) == ahead(ack, h.una) - h.unacked(),
{
    lemma_segment_reach(h);
    lemma_segment_span(h);
    lemma_precedes_by_distance(ack, h.after());
    lemma_precedes_by_distance(h.last(), ack);
    lemma_ahead_split(h.una, h.after(), ack);
    lemma_ahead_split(h.una, h.last(), ack);
    lemma_ahead_range(ack, h.after());
    lemma_ahead_range(h.after(), ack);
}

/// A head that starts at the acknowledgment is not acknowledged at all.
pub proof fn lemma_untouched_head(h: Segment)
    requires
        h.wf(),
    ensures
        !strictly_between(h.una, h.una, h.after()),
        !precedes(h.last(), h.una),
{
    lemma_segment_reach(h);
    lemma_segment_span(h);
    lemma_ahead_range(h.una, h.una);
    lemma_precedes_by_distance(h.una, h.una);
    lemma_precedes_by_distance(h.last(), h.una);
    lemma_ahead_range(h.una, h.last());
    lemma_ahead_range(h.last(), h.una);
}

/// A queue whose head was acknowledged in part is a queue from the
/// acknowledgment.
pub proof fn lemma_chained_partial(s: Seq<Segment>, una: u32, nxt: u32, ack: u32)
    requires
        chained(s, una, nxt),
        s.len() > 0,
        0 < ahead(ack, una) < s[0].unacked(),
    ensures
        chained(s.update(0, Segment { una: ack, ..s[0] }), ack, nxt),
        sent_data(s.update(0, Segment { una: ack, ..s[0] })) == sent_data(s) - ahead(ack, una),
        ahead(ack, una) <= sent_data(s),
{
    let h = s[0];
    let d = ahead(ack, una);
    let x = Segment { una: ack, ..h };
    let t = s.update(0, x);
    lemma_chained_rest(s, una, nxt);
    lemma_partial_head(h, ack);
    lemma_segment_span(h);
    lemma_segment_span(x);
    lemma_sent_data_head(s, x);
    lemma_sent_data_front(s);
    lemma_sent_data_bounds(s.drop_first());
    assert forall|i: int| 0 <= i < t.len() implies (#[trigger] t[i]).wf() by {
        if i > 0 {
            assert(t[i] == s[i]);
        }
    }
    assert forall|i: int| 0 < i < t.len() implies (#[trigger] t[i]).una == t[i].sno && !t[i].syn by {
        assert(t[i] == s[i]);
    }
    assert forall|i: int| 0 <= i < t.len() - 1 implies !(#[trigger] t[i]).fin && t[i + 1].sno
        == t[i].after() by {
        assert(t[i + 1] == s[i + 1]);
        assert(!s[i].fin);
        if i > 0 {
            assert(t[i] == s[i]);
        }
    }
    assert(t.last().after() == nxt) by {
        if t.len() > 1 {
            assert(t.last() == s.last());
        }
    }
    assert(t.last().fin == s.last().fin);
    assert(queue_control(t) == queue_control(s));
    lemma_ahead_split(una, ack, nxt);
}

/// What an acknowledgment between `una` and `nxt` leaves of a queue is a
/// queue from the acknowledgment to `nxt`. The bytes that leave the outgoing
/// buffer are the data that is no longer in flight. No SYN and no FIN comes
/// into being.
pub proof fn lemma_acknowledge(s: Seq<Segment>, una: u32, nxt: u32, ack: u32)
    requires
        chained(s, una, nxt),
        ahead(ack, una) <= ahead(nxt, una),
    ensures
        chained(acknowledge(s, ack).segments, ack, nxt),
        0 <= acknowledge(s, ack).drained <= sent_data(s),
        sent_data(acknowledge(s, ack).segments) == sent_data(s) - acknowledge(s, ack).drained,
        acknowledge(s, ack).segments.len() <= s.len(),
        acknowledge(s, ack).segments.len() > 0 && acknowledge(s, ack).segments.last().fin
            ==> s.len() > 0 && s.last().fin,
        ack != una ==> acknowledge(s, ack).segments.len() == 0 || !acknowledge(s, ack).segments[0].syn,
        ack == una ==> acknowledge(s, ack).segments == s,
    decreases s.len(),
{
    let a = acknowledge(s, ack);
    lemma_sent_data_bounds(s);
    lemma_ahead_range(ack, una);
    if s.len() == 0 {
    } else {
        let h = s[0];
        let r = s.drop_first();
        let d = ahead(ack, una);
        lemma_chained_rest(s, una, nxt);
        lemma_segment_span(h);
        lemma_sent_data_front(s);
        lemma_sent_data_bounds(r);
        if 0 < d < h.unacked() {
            lemma_partial_head(h, ack);
            lemma_chained_partial(s, una, nxt, ack);
            assert(a.segments == s.update(0, Segment { una: ack, ..h }));
            assert(a.segments.last().fin == s.last().fin);
        } else if d >= h.unacked() {
            lemma_full_head(h, ack);
            lemma_acknowledge(r, h.after(), nxt, ack);
            assert(a.segments == acknowledge(r, ack).segments);
            if acknowledge(r, ack).segments.len() > 0 {
                assert(r.last() == s.last());
                if ack == h.after() {
                    assert(r[0] == s[1]);
                }
            }
        } else {
            lemma_untouched_head(h);
        }
    }
}

/// A head that changes in nothing but its record of transmissions leaves
/// the queue what it was.
pub proof fn lemma_head_touched(s: Seq<Segment>, una: u32, nxt: u32, x: Segment)
    requires
        chained(s, una, nxt),
        s.len() > 0,
        x.sno == s[0].sno,
        x.una == s[0].una,
        x.len == s[0].len,
        x.fin == s[0].fin,
        x.syn == s[0].syn,
    ensures
        chained(s.update(0, x), una, nxt),
        sent_data(s.update(0, x)) == sent_data(s),
        s.update(0, x).last().fin == s.last().fin,
        s[0].unacked_data() <= sent_data(s),
{
    let t = s.update(0, x);
    lemma_sent_data_head(s, x);
    lemma_sent_data_front(s);
    assert forall|i: int| 0 <= i < s.drop_first().len() implies (#[trigger] s.drop_first()[i]).wf() by {
        assert(s.drop_first()[i] == s[i + 1]);
    }
    lemma_sent_data_bounds(s.drop_first());
    assert forall|i: int| 0 <= i < t.len() implies (#[trigger] t[i]).wf() by {
        if i > 0 {
            assert(t[i] == s[i]);
        } else {
            assert(s[0].wf());
        }
    }
    assert forall|i: int| 0 < i < t.len() implies (#[trigger] t[i]).una == t[i].sno && !t[i].syn by {
        assert(t[i] == s[i]);
    }
    assert forall|i: int| 0 <= i < t.len() - 1 implies !(#[trigger] t[i]).fin && t[i + 1].sno
        == t[i].after() by {
        assert(t[i + 1] == s[i + 1]);
        assert(!s[i].fin);
        if i > 0 {
            assert(t[i] == s[i]);
        }
    }
    if t.len() > 1 {
        assert(t.last() == s.last());
    }
    assert(queue_control(t) == queue_control(s));
}

/// One step of the walk of a queue with an acknowledgment, seen at its
/// head: which of the three cases holds, and what is left to walk.
pub proof fn lemma_acknowledge_step(s: Seq<Segment>, una: u32, nxt: u32, ack: u32)
    requires
        chained(s, una, nxt),
        ahead(ack, una) <= ahead(nxt, una),
        s.len() > 0,
    ensures
        s[0].wf(),
        0 <= acknowledge(s, ack).drained <= sent_data(s) <= 65535,
        advance(s[0].last(), 1) == s[0].after(),
        strictly_between(s[0].una, ack, s[0].after()) ==> ahead(ack, s[0].una) == acknowledge(
            s,
            ack,
        ).drained,
        !strictly_between(s[0].una, ack, s[0].after()) && precedes(s[0].last(), ack) ==> {
            &&& chained(s.drop_first(), s[0].after(), nxt)
            &&& ahead(ack, s[0].after()) <= ahead(nxt, s[0].after())
            &&& 0 <= acknowledge(s.drop_first(), ack).drained
        },
{
    let h = s[0];
    lemma_acknowledge(s, una, nxt, ack);
    lemma_chained_rest(s, una, nxt);
    lemma_segment_span(h);
    lemma_advance_twice(h.sno, h.len - 1, 1);
    lemma_ahead_range(ack, una);
    if 0 < ahead(ack, una) < h.unacked() {
        lemma_partial_head(h, ack);
    } else if ahead(ack, una) >= h.unacked() {
        lemma_full_head(h, ack);
        lemma_acknowledge(s.drop_first(), h.after(), nxt, ack);
    } else {
        lemma_untouched_head(h);
    }
}

/// A queue that covers nothing is empty.
pub proof fn lemma_chained_empty(s: Seq<Segment>, una: u32)
    requires
        chained(s, una, una),
    ensures
        s.len() == 0,
        sent_data(s) == 0,
{
    lemma_ahead_range(una, una);
    if s.len() > 0 {
        lemma_chained_rest(s, una, una);
        lemma_segment_span(s[0]);
    }
}

/// What an acknowledgment leaves of a queue is the end of the queue, in
/// order, with its head trimmed at most. The segments that leave are those
/// whose last number the acknowledgment lies beyond, and the head that stays
/// is not one of those that the walk would take out.
pub proof fn lemma_acknowledge_keeps_order(s: Seq<Segment>, ack: u32)
    ensures
        ({
            let a = acknowledge(s, ack).segments;
            let k = s.len() - a.len();
            &&& 0 <= k <= s.len()
            &&& forall|j: int| 0 <= j < k ==> precedes((#[trigger] s[j]).last(), ack)
            &&& forall|i: int| 0 < i < a.len() ==> #[trigger] a[i] == s[k + i]
            &&& a.len() > 0 ==> a[0] == s[k] || a[0] == (Segment { una: ack, ..s[k] })
            &&& a.len() > 0 ==> strictly_between(s[k].una, ack, s[k].after()) || !precedes(
                s[k].last(),
                ack,
            )
        }),
    decreases s.len(),
{
    if s.len() > 0 && !strictly_between(s[0].una, ack, s[0].after()) && precedes(s[0].last(), ack) {
        let r = s.drop_first();
        lemma_acknowledge_keeps_order(r, ack);
        let a = acknowledge(s, ack).segments;
        let k = s.len() - a.len();
        assert(a == acknowledge(r, ack).segments);
        assert forall|j: int| 0 <= j < k implies precedes((#[trigger] s[j]).last(), ack) by {
            if j > 0 {
                assert(s[j] == r[j - 1]);
            }
        }
        assert forall|i: int| 0 < i < a.len() implies #[trigger] a[i] == s[k + i] by {
            assert(r[k - 1 + i] == s[k + i]);
        }
        if a.len() > 0 {
            assert(r[k - 1] == s[k]);
        }
    }
}

} // verus!

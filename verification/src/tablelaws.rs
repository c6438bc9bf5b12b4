//! What holds of the connection table: where keys are found, and that the
//! calls of an application and the events of the network keep the table
//! well formed, so that a pair of ends never names two connections.

use vstd::prelude::*;
use crate::codec::Header;
use crate::model::{ActionModel, TcbModel};
use crate::err::Error;
use crate::table::{
    distinct, ended_quads, enqueued, failed, first_at, given_up, ports, quads, reopened,
    tick_entries, top, without, Backlog, Ended, Entry, ManagerModel,
};
use crate::types::{Dual, Quad};

verus! {

/// Where the first `k` stands among keys.
pub proof fn lemma_first_at<K>(keys: Seq<K>, k: K)
    ensures
        0 <= first_at(keys, k) <= keys.len(),
        first_at(keys, k) < keys.len() ==> keys[first_at(keys, k)] == k,
        forall|j: int| 0 <= j < first_at(keys, k) ==> keys[j] != k,
    decreases keys.len(),
{
    if keys.len() > 0 && keys[0] != k {
        lemma_first_at(keys.drop_first(), k);
        assert forall|j: int| 0 <= j < first_at(keys, k) implies keys[j] != k by {
            if j > 0 {
                assert(keys[j] == keys.drop_first()[j - 1]);
            }
        }
    }
}

/// The first `k` stands where `k` stands and no `k` stands before.
pub proof fn lemma_first_at_is<K>(keys: Seq<K>, k: K, i: int)
    requires
        0 <= i <= keys.len(),
        forall|j: int| 0 <= j < i ==> keys[j] != k,
        i < keys.len() ==> keys[i] == k,
    ensures
        first_at(keys, k) == i,
    decreases keys.len(),
{
    if keys.len() > 0 && i > 0 {
        assert(keys[0] != k);
        let r = keys.drop_first();
        assert forall|j: int| 0 <= j < i - 1 implies r[j] != k by {
            assert(r[j] == keys[j + 1]);
        }
        lemma_first_at_is(r, k, i - 1);
    }
}

/// The greatest port is a port of the list and no port is greater.
pub proof fn lemma_top(s: Seq<u16>)
    ensures
        -1 <= top(s) <= 65535,
        s.len() > 0 ==> 0 <= top(s),
        forall|i: int| 0 <= i < s.len() ==> s[i] <= top(s),
    decreases s.len(),
{
    if s.len() > 0 {
        lemma_top(s.drop_last());
        assert forall|i: int| 0 <= i < s.len() implies s[i] <= top(s) by {
            if i < s.len() - 1 {
                assert(s[i] == s.drop_last()[i]);
            }
        }
    }
}

/// A key is found exactly when it is among the keys.
pub proof fn lemma_found<K>(keys: Seq<K>, k: K)
    ensures
        (first_at(keys, k) < keys.len()) == keys.contains(k),
{
    lemma_first_at(keys, k);
    if keys.contains(k) {
        let i = choose|i: int| 0 <= i < keys.len() && keys[i] == k;
        assert(keys[i] == k);
    }
}

/// The invariant of one connection survives an inbound segment.
pub proof fn lemma_entry_step(e: Entry, h: Header, data: Seq<u8>, now: u64)
    requires
        ManagerModel::entry_ok(e),
        data.len() <= 65535,
    ensures
        ManagerModel::entry_ok(Entry { quad: e.quad, tcb: e.tcb.on_segment(h, data, now).tcb }),
        !(e.tcb.on_segment(h, data, now).action is AddToPending),
{
    crate::wellformed::lemma_on_segment_wf(e.tcb, h, data, now);
    crate::wellformed::lemma_step_shape(e.tcb, h, data, now);
}

/// A list without one of its connections keeps what held of all of them.
pub proof fn lemma_without(s: Seq<Entry>, quad: Quad)
    requires
        distinct(quads(s)),
    ensures
        distinct(quads(without(s, quad))),
        forall|i: int|
            0 <= i < without(s, quad).len() ==> s.contains(#[trigger] without(s, quad)[i]) && without(
                s,
                quad,
            )[i].quad != quad,
        without(s, quad).len() <= s.len(),
{
    let at = first_at(quads(s), quad);
    lemma_first_at(quads(s), quad);
    let w = without(s, quad);
    if at < s.len() {
        assert forall|i: int| 0 <= i < w.len() implies s.contains(#[trigger] w[i]) && w[i].quad
            != quad by {
            let j = if i < at { i } else { i + 1 };
            assert(w[i] == s[j]);
            assert(quads(s)[j] == s[j].quad);
            assert(quads(s)[at] == quad);
        }
        assert forall|i: int, j: int| 0 <= i < j < w.len() implies quads(w)[i] != quads(w)[j] by {
            let a = if i < at { i } else { i + 1 };
            let b = if j < at { j } else { j + 1 };
            assert(quads(s)[a] != quads(s)[b]);
        }
    } else {
        assert forall|i: int| 0 <= i < w.len() implies s.contains(#[trigger] w[i]) && w[i].quad
            != quad by {
            assert(quads(s)[i] == s[i].quad);
        }
    }
}

/// A recorded failure leaves the ports of the backlogs as they are.
pub proof fn lemma_failed(s: Seq<Backlog>, port: u16, error: Error)
    ensures
        ports(failed(s, port, error)) == ports(s),
{
    lemma_first_at(ports(s), port);
    assert(ports(failed(s, port, error)) =~= ports(s));
}

/// Recorded failures leave the ports of the backlogs as they are.
pub proof fn lemma_given_up(s: Seq<Backlog>, gone: Seq<Ended>)
    ensures
        ports(given_up(s, gone)) == ports(s),
    decreases gone.len(),
{
    if gone.len() > 0 {
        lemma_given_up(s, gone.drop_last());
        lemma_failed(given_up(s, gone.drop_last()), gone.last().quad.src.port, Error::ConnectionReset);
    }
}

/// A fresh backlog for a port keeps the ports distinct and keeps every port
/// that had a backlog.
pub proof fn lemma_reopened(s: Seq<Backlog>, port: u16)
    requires
        distinct(ports(s)),
    ensures
        distinct(ports(reopened(s, port))),
        ports(reopened(s, port)).contains(port),
        forall|p: u16| ports(s).contains(p) ==> ports(reopened(s, port)).contains(p),
{
    let at = first_at(ports(s), port);
    let r = reopened(s, port);
    lemma_first_at(ports(s), port);
    lemma_found(ports(s), port);
    if at < s.len() {
        assert(ports(r) =~= ports(s));
        assert(ports(r)[at] == port);
    } else {
        assert(ports(r) =~= ports(s).push(port));
        assert(ports(r)[s.len() as int] == port);
        assert forall|p: u16| ports(s).contains(p) implies ports(r).contains(p) by {
            let k = choose|k: int| 0 <= k < ports(s).len() && ports(s)[k] == p;
            assert(ports(r)[k] == p);
        }
    }
}

/// Applying an action keeps the table well formed, if a connection that
/// asks to be registered is new to the table and well formed.
pub proof fn lemma_apply_wf(t: ManagerModel, quad: Quad, action: ActionModel)
    requires
        t.wf(),
        action matches ActionModel::AddToPending(x) ==> !t.has_connection(quad)
            && ManagerModel::entry_ok(Entry { quad, tcb: x }),
    ensures
        t.apply(quad, action).wf(),
{
    let r = t.apply(quad, action);
    lemma_failed(t.established, quad.src.port, Error::ConnectionRefused);
    lemma_first_at(quads(t.pending), quad);
    lemma_first_at(quads(t.streams), quad);
    lemma_without(t.pending, quad);
    lemma_without(t.streams, quad);
    match action {
        ActionModel::AddToPending(x) => {
            let e = Entry { quad, tcb: x };
            assert forall|i: int, j: int| 0 <= i < j < r.pending.len() implies quads(r.pending)[i]
                != quads(r.pending)[j] by {
                assert(quads(t.pending)[i] == t.pending[i].quad);
                if j < t.pending.len() {
                    assert(quads(t.pending)[i] != quads(t.pending)[j]);
                }
            }
            assert forall|i: int, j: int|
                0 <= i < r.pending.len() && 0 <= j < r.streams.len() implies (#[trigger] r.pending[i]).quad
                != (#[trigger] r.streams[j]).quad by {
                assert(quads(t.streams)[j] == t.streams[j].quad);
                if i < t.pending.len() {
                    assert(r.pending[i] == t.pending[i]);
                }
            }
            assert forall|i: int| 0 <= i < r.pending.len() implies ManagerModel::entry_ok(
                #[trigger] r.pending[i],
            ) by {
                if i < t.pending.len() {
                    assert(r.pending[i] == t.pending[i]);
                }
            }
        },
        ActionModel::IsEstablished => {
            let at = first_at(quads(t.pending), quad);
            if at < t.pending.len() {
                let e = t.pending[at];
                assert(quads(t.pending)[at] == e.quad);
                assert(without(t.pending, quad) == t.pending.remove(at));
                assert forall|i: int, j: int| 0 <= i < j < r.streams.len() implies quads(
                    r.streams,
                )[i] != quads(r.streams)[j] by {
                    if j < t.streams.len() {
                        assert(quads(t.streams)[i] != quads(t.streams)[j]);
                    } else {
                        assert(r.streams[i] == t.streams[i]);
                    }
                }
                assert forall|i: int, j: int|
                    0 <= i < r.pending.len() && 0 <= j < r.streams.len() implies (
                #[trigger] r.pending[i]).quad != (#[trigger] r.streams[j]).quad by {
                    assert(t.pending.contains(r.pending[i]));
                    let k = choose|k: int| 0 <= k < t.pending.len() && t.pending[k] == r.pending[i];
                    if j < t.streams.len() {
                        assert(r.streams[j] == t.streams[j]);
                        assert(t.pending[k].quad != t.streams[j].quad);
                    }
                }
                assert forall|i: int| 0 <= i < r.pending.len() implies ManagerModel::entry_ok(
                    #[trigger] r.pending[i],
                ) by {
                    assert(t.pending.contains(r.pending[i]));
                }
                assert forall|i: int| 0 <= i < r.streams.len() implies ManagerModel::entry_ok(
                    #[trigger] r.streams[i],
                ) by {
                    if i < t.streams.len() {
                        assert(r.streams[i] == t.streams[i]);
                    }
                }
                lemma_enqueued(t.established, quad.src.port, quad);
            }
        },
        ActionModel::Noop => {},
        ActionModel::Wakeup { .. } => {},
        _ => {
            assert forall|i: int, j: int|
                0 <= i < r.pending.len() && 0 <= j < r.streams.len() implies (#[trigger] r.pending[i]).quad
                != (#[trigger] r.streams[j]).quad by {
                assert(t.pending.contains(r.pending[i]));
                assert(t.streams.contains(r.streams[j]));
            }
            assert forall|i: int| 0 <= i < r.pending.len() implies ManagerModel::entry_ok(
                #[trigger] r.pending[i],
            ) by {
                assert(t.pending.contains(r.pending[i]));
            }
            assert forall|i: int| 0 <= i < r.streams.len() implies ManagerModel::entry_ok(
                #[trigger] r.streams[i],
            ) by {
                assert(t.streams.contains(r.streams[i]));
            }
        },
    }
}

/// A connection that joins a backlog leaves the ports of the backlogs as
/// they are.
pub proof fn lemma_enqueued(s: Seq<Backlog>, port: u16, quad: Quad)
    ensures
        ports(enqueued(s, port, quad)) == ports(s),
{
    lemma_first_at(ports(s), port);
    assert(ports(enqueued(s, port, quad)) =~= ports(s));
}

/// A connection that changes in place leaves the table well formed, if the
/// connection stays well formed under its name.
pub proof fn lemma_replace_wf(t: ManagerModel, in_streams: bool, at: int, e: Entry)
    requires
        t.wf(),
        ManagerModel::entry_ok(e),
        in_streams ==> 0 <= at < t.streams.len() && t.streams[at].quad == e.quad,
        !in_streams ==> 0 <= at < t.pending.len() && t.pending[at].quad == e.quad,
    ensures
        in_streams ==> (ManagerModel { streams: t.streams.update(at, e), ..t }).wf(),
        !in_streams ==> (ManagerModel { pending: t.pending.update(at, e), ..t }).wf(),
        in_streams ==> quads(t.streams.update(at, e)) == quads(t.streams),
        !in_streams ==> quads(t.pending.update(at, e)) == quads(t.pending),
{
    if in_streams {
        let u = t.streams.update(at, e);
        assert(quads(u) =~= quads(t.streams));
        assert forall|i: int, j: int|
            0 <= i < t.pending.len() && 0 <= j < u.len() implies (#[trigger] t.pending[i]).quad != (
        #[trigger] u[j]).quad by {
            assert(t.pending[i].quad != t.streams[j].quad);
        }
        assert forall|i: int| 0 <= i < u.len() implies ManagerModel::entry_ok(#[trigger] u[i]) by {
            if i != at {
                assert(u[i] == t.streams[i]);
            }
        }
    } else {
        let u = t.pending.update(at, e);
        assert(quads(u) =~= quads(t.pending));
        assert forall|i: int, j: int|
            0 <= i < u.len() && 0 <= j < t.streams.len() implies (#[trigger] u[i]).quad != (
        #[trigger] t.streams[j]).quad by {
            assert(t.pending[i].quad != t.streams[j].quad);
        }
        assert forall|i: int| 0 <= i < u.len() implies ManagerModel::entry_ok(#[trigger] u[i]) by {
            if i != at {
                assert(u[i] == t.pending[i]);
            }
        }
    }
}

/// An inbound segment keeps the table well formed.
pub proof fn lemma_route_wf(t: ManagerModel, h: Header, data: Seq<u8>, now: u64)
    requires
        t.wf(),
        data.len() <= 65535,
    ensures
        t.on_segment(h, data, now).table.wf(),
{
    let quad = Quad { src: h.destination, dst: h.source };
    let s = first_at(quads(t.streams), quad);
    let p = first_at(quads(t.pending), quad);
    lemma_first_at(quads(t.streams), quad);
    lemma_first_at(quads(t.pending), quad);
    if s < t.streams.len() {
        assert(quads(t.streams)[s] == t.streams[s].quad);
        let step = t.streams[s].tcb.on_segment(h, data, now);
        let e = Entry { quad, tcb: step.tcb };
        lemma_entry_step(t.streams[s], h, data, now);
        lemma_replace_wf(t, true, s, e);
        lemma_apply_wf(ManagerModel { streams: t.streams.update(s, e), ..t }, quad, step.action);
    } else if p < t.pending.len() {
        assert(quads(t.pending)[p] == t.pending[p].quad);
        let step = t.pending[p].tcb.on_segment(h, data, now);
        let e = Entry { quad, tcb: step.tcb };
        lemma_entry_step(t.pending[p], h, data, now);
        lemma_replace_wf(t, false, p, e);
        lemma_apply_wf(ManagerModel { pending: t.pending.update(p, e), ..t }, quad, step.action);
    } else if t.is_bound(quad.src.port) {
        let l = TcbModel::listen(quad, t.iss);
        crate::wellformed::lemma_created_wf(quad, t.iss);
        crate::wellformed::lemma_on_segment_wf(l, h, data, now);
        crate::wellformed::lemma_step_shape(l, h, data, now);
        lemma_apply_wf(t, quad, l.on_segment(h, data, now).action);
    }
}

/// Ticking a list of connections keeps those that stay well formed under
/// their names, and brings no new name.
pub proof fn lemma_tick_entries(s: Seq<Entry>, now: u64)
    requires
        forall|i: int| 0 <= i < s.len() ==> ManagerModel::entry_ok(#[trigger] s[i]),
        distinct(quads(s)),
    ensures
        forall|i: int|
            0 <= i < tick_entries(s, now).kept.len() ==> ManagerModel::entry_ok(
                #[trigger] tick_entries(s, now).kept[i],
            ) && quads(s).contains(tick_entries(s, now).kept[i].quad),
        distinct(quads(tick_entries(s, now).kept)),
    decreases s.len(),
{
    let k = tick_entries(s, now).kept;
    if s.len() > 0 {
        let r = s.drop_first();
        let t = s[0].tcb.on_tick(now);
        assert forall|i: int| 0 <= i < r.len() implies ManagerModel::entry_ok(#[trigger] r[i]) by {
            assert(r[i] == s[i + 1]);
        }
        assert forall|i: int, j: int| 0 <= i < j < r.len() implies quads(r)[i] != quads(r)[j] by {
            assert(quads(s)[i + 1] != quads(s)[j + 1]);
        }
        lemma_tick_entries(r, now);
        let rk = tick_entries(r, now).kept;
        crate::wellformed::lemma_on_tick_wf(s[0].tcb, now);
        crate::wellformed::lemma_tick_shape(s[0].tcb, now);
        assert forall|i: int| 0 <= i < rk.len() implies quads(s).contains(#[trigger] rk[i].quad)
            && rk[i].quad != s[0].quad by {
            let j = choose|j: int| 0 <= j < r.len() && quads(r)[j] == rk[i].quad;
            assert(quads(s)[j + 1] == rk[i].quad);
            assert(quads(s)[0] != quads(s)[j + 1]);
        }
        if t.delete {
            assert(k == rk);
        } else {
            let e = Entry { quad: s[0].quad, tcb: t.tcb };
            assert(k =~= seq![e] + rk);
            assert(quads(s)[0] == e.quad);
            assert forall|i: int| 0 <= i < k.len() implies ManagerModel::entry_ok(#[trigger] k[i])
                && quads(s).contains(k[i].quad) by {
                if i > 0 {
                    assert(k[i] == rk[i - 1]);
                }
            }
            assert forall|i: int, j: int| 0 <= i < j < k.len() implies quads(k)[i] != quads(k)[j] by {
                assert(k[j] == rk[j - 1]);
                if i > 0 {
                    assert(k[i] == rk[i - 1]);
                    assert(quads(rk)[i - 1] != quads(rk)[j - 1]);
                }
            }
        }
    }
}

/// A tick parts a list of connections in two: every connection is either
/// kept under its name or destroyed, never both, and no name comes into
/// being.
pub proof fn lemma_tick_parts(s: Seq<Entry>, now: u64)
    requires
        distinct(quads(s)),
    ensures
        forall|q: Quad| #[trigger]
            ended_quads(tick_entries(s, now).deleted).contains(q) ==> quads(s).contains(q) && !quads(
                tick_entries(s, now).kept,
            ).contains(q),
        forall|q: Quad| #[trigger]
            quads(s).contains(q) ==> quads(tick_entries(s, now).kept).contains(q) || ended_quads(
                tick_entries(s, now).deleted,
            ).contains(q),
        forall|q: Quad| #[trigger]
            quads(tick_entries(s, now).kept).contains(q) ==> quads(s).contains(q),
    decreases s.len(),
{
    let t = tick_entries(s, now);
    let k = quads(t.kept);
    let d = ended_quads(t.deleted);
    if s.len() > 0 {
        let r = s.drop_first();
        let tr = tick_entries(r, now);
        let kr = quads(tr.kept);
        let dr = ended_quads(tr.deleted);
        let q0 = s[0].quad;
        assert(quads(s)[0] == q0);
        assert forall|i: int, j: int| 0 <= i < j < r.len() implies quads(r)[i] != quads(r)[j] by {
            assert(quads(s)[i + 1] != quads(s)[j + 1]);
        }
        lemma_tick_parts(r, now);
        // the names of the rest are names of the whole, and none is the first name
        assert forall|q: Quad| quads(r).contains(q) implies quads(s).contains(q) && q != q0 by {
            let i = choose|i: int| 0 <= i < quads(r).len() && quads(r)[i] == q;
            assert(quads(s)[i + 1] == q);
            assert(quads(s)[0] != quads(s)[i + 1]);
        }
        assert forall|q: Quad| quads(s).contains(q) && q != q0 implies quads(r).contains(q) by {
            let i = choose|i: int| 0 <= i < quads(s).len() && quads(s)[i] == q;
            assert(quads(r)[i - 1] == q);
        }
        let step = s[0].tcb.on_tick(now);
        if step.delete {
            assert(t.kept == tr.kept);
            assert(d =~= seq![q0] + dr);
            assert(d[0] == q0);
            assert forall|q: Quad| dr.contains(q) implies d.contains(q) by {
                let i = choose|i: int| 0 <= i < dr.len() && dr[i] == q;
                assert(d[i + 1] == q);
            }
            assert forall|q: Quad| d.contains(q) implies q == q0 || dr.contains(q) by {
                let i = choose|i: int| 0 <= i < d.len() && d[i] == q;
                if i > 0 {
                    assert(dr[i - 1] == q);
                }
            }
            assert forall|q: Quad| #[trigger] d.contains(q) implies quads(s).contains(q) && !k.contains(
                q,
            ) by {
                if q != q0 {
                    assert(dr.contains(q));
                } else if kr.contains(q0) {
                    assert(quads(r).contains(q0));
                }
            }
            assert forall|q: Quad| #[trigger] quads(s).contains(q) implies k.contains(q) || d.contains(
                q,
            ) by {
                if q != q0 {
                    assert(quads(r).contains(q));
                }
            }
        } else {
            assert(t.deleted == tr.deleted);
            assert(k =~= seq![q0] + kr);
            assert(k[0] == q0);
            assert forall|q: Quad| kr.contains(q) implies k.contains(q) by {
                let i = choose|i: int| 0 <= i < kr.len() && kr[i] == q;
                assert(k[i + 1] == q);
            }
            assert forall|q: Quad| k.contains(q) implies q == q0 || kr.contains(q) by {
                let i = choose|i: int| 0 <= i < k.len() && k[i] == q;
                if i > 0 {
                    assert(kr[i - 1] == q);
                }
            }
            assert forall|q: Quad| #[trigger] d.contains(q) implies quads(s).contains(q) && !k.contains(
                q,
            ) by {
                assert(quads(r).contains(q));
            }
            assert forall|q: Quad| #[trigger] quads(s).contains(q) implies k.contains(q) || d.contains(
                q,
            ) by {
                if q != q0 {
                    assert(quads(r).contains(q));
                }
            }
            assert forall|q: Quad| #[trigger] k.contains(q) implies quads(s).contains(q) by {
                if q != q0 {
                    assert(kr.contains(q));
                }
            }
        }
    } else {
        assert(k =~= Seq::empty());
        assert(d =~= Seq::empty());
    }
}

/// A connection that a tick destroys is in the table no more, in neither
/// list, and a connection that the tick does not destroy stays in its list.
pub proof fn lemma_tick_removes(t: ManagerModel, now: u64, quad: Quad)
    requires
        t.wf(),
    ensures
        ended_quads(tick_entries(t.streams, now).deleted).contains(quad) || ended_quads(
            tick_entries(t.pending, now).deleted,
        ).contains(quad) ==> !t.on_tick(now).has_connection(quad),
        t.has_connection(quad) && !ended_quads(tick_entries(t.streams, now).deleted).contains(quad)
            && !ended_quads(tick_entries(t.pending, now).deleted).contains(quad) ==> t.on_tick(
            now,
        ).has_connection(quad),
{
    let r = t.on_tick(now);
    lemma_tick_parts(t.streams, now);
    lemma_tick_parts(t.pending, now);
    lemma_found(quads(t.streams), quad);
    lemma_found(quads(t.pending), quad);
    lemma_found(quads(r.streams), quad);
    lemma_found(quads(r.pending), quad);
    if quads(t.streams).contains(quad) && quads(t.pending).contains(quad) {
        let i = choose|i: int| 0 <= i < t.pending.len() && quads(t.pending)[i] == quad;
        let j = choose|j: int| 0 <= j < t.streams.len() && quads(t.streams)[j] == quad;
        assert(t.pending[i].quad != t.streams[j].quad);
    }
}

/// A tick keeps the table well formed.
pub proof fn lemma_table_tick_wf(t: ManagerModel, now: u64)
    requires
        t.wf(),
    ensures
        t.on_tick(now).wf(),
{
    let r = t.on_tick(now);
    lemma_tick_entries(t.streams, now);
    lemma_tick_entries(t.pending, now);
    lemma_given_up(t.established, tick_entries(t.pending, now).deleted);
    assert forall|i: int, j: int|
        0 <= i < r.pending.len() && 0 <= j < r.streams.len() implies (#[trigger] r.pending[i]).quad != (
    #[trigger] r.streams[j]).quad by {
        let a = choose|a: int| 0 <= a < t.pending.len() && quads(t.pending)[a] == r.pending[i].quad;
        let b = choose|b: int| 0 <= b < t.streams.len() && quads(t.streams)[b] == r.streams[j].quad;
        assert(t.pending[a].quad != t.streams[b].quad);
    }
}

/// A bind keeps the table well formed.
pub proof fn lemma_bind_wf(t: ManagerModel, port: u16)
    requires
        t.wf(),
    ensures
        t.bind(port).wf(),
{
    let r = t.bind(port);
    lemma_first_at(t.bounded, port);
    lemma_found(t.bounded, port);
    if !t.is_bound(port) {
        lemma_reopened(t.established, port);
        assert forall|i: int| 0 <= i < r.bounded.len() implies ports(r.established).contains(
            #[trigger] r.bounded[i],
        ) by {
            if i < t.bounded.len() {
                assert(r.bounded[i] == t.bounded[i]);
            }
        }
        assert forall|i: int, j: int| 0 <= i < j < r.bounded.len() implies r.bounded[i]
            != r.bounded[j] by {
            if j == t.bounded.len() {
                assert(t.bounded.contains(t.bounded[i]));
            }
        }
    }
}

/// The release of a port keeps the table well formed.
pub proof fn lemma_unbind_wf(t: ManagerModel, port: u16)
    requires
        t.wf(),
    ensures
        t.unbind(port).wf(),
{
    let r = t.unbind(port);
    lemma_first_at(t.bounded, port);
    if t.is_bound(port) {
        let at = first_at(t.bounded, port);
        assert forall|i: int| 0 <= i < r.bounded.len() implies ports(r.established).contains(
            #[trigger] r.bounded[i],
        ) by {
            let j = if i < at { i } else { i + 1 };
            assert(r.bounded[i] == t.bounded[j]);
        }
    }
}

/// An accept keeps the table well formed.
pub proof fn lemma_accept_wf(t: ManagerModel, port: u16)
    requires
        t.wf(),
    ensures
        t.accept(port).wf(),
{
    lemma_first_at(ports(t.established), port);
    assert(ports(t.accept(port).established) =~= ports(t.established));
}

/// An active open keeps the table well formed.
pub proof fn lemma_connect_wf(t: ManagerModel, local: u32, remote: Dual)
    requires
        t.wf(),
        t.can_connect(local, remote),
    ensures
        t.connect(local, remote).wf(),
{
    let r = t.connect(local, remote);
    let quad = t.next_quad(local, remote);
    let p = quad.src.port;
    lemma_top(t.bounded);
    lemma_reopened(t.established, p);
    lemma_first_at(quads(t.pending), quad);
    lemma_first_at(quads(t.streams), quad);
    crate::wellformed::lemma_created_wf(quad, t.iss);
    assert forall|i: int, j: int| 0 <= i < j < r.bounded.len() implies r.bounded[i]
        != r.bounded[j] by {
        if j == t.bounded.len() {
            assert(t.bounded[i] <= top(t.bounded));
        }
    }
    assert forall|i: int| 0 <= i < r.bounded.len() implies ports(r.established).contains(
        #[trigger] r.bounded[i],
    ) by {
        if i < t.bounded.len() {
            assert(r.bounded[i] == t.bounded[i]);
        }
    }
    assert forall|i: int, j: int| 0 <= i < j < r.pending.len() implies quads(r.pending)[i]
        != quads(r.pending)[j] by {
        assert(quads(t.pending)[i] == t.pending[i].quad);
        if j < t.pending.len() {
            assert(quads(t.pending)[i] != quads(t.pending)[j]);
        }
    }
    assert forall|i: int, j: int|
        0 <= i < r.pending.len() && 0 <= j < r.streams.len() implies (#[trigger] r.pending[i]).quad
        != (#[trigger] r.streams[j]).quad by {
        assert(quads(t.streams)[j] == t.streams[j].quad);
        if i < t.pending.len() {
            assert(r.pending[i] == t.pending[i]);
        }
    }
    assert forall|i: int| 0 <= i < r.pending.len() implies ManagerModel::entry_ok(
        #[trigger] r.pending[i],
    ) by {
        if i < t.pending.len() {
            assert(r.pending[i] == t.pending[i]);
        }
    }
}

/// Binding, unbinding, opening and accepting keep the table well formed.
pub proof fn lemma_calls_wf(t: ManagerModel, port: u16, local: u32, remote: Dual)
    requires
        t.wf(),
    ensures
        t.bind(port).wf(),
        t.unbind(port).wf(),
        t.accept(port).wf(),
        t.can_connect(local, remote) ==> t.connect(local, remote).wf(),
{
    lemma_bind_wf(t, port);
    lemma_unbind_wf(t, port);
    lemma_accept_wf(t, port);
    if t.can_connect(local, remote) {
        lemma_connect_wf(t, local, remote);
    }
}

/// A pair of ends names at most one connection: it is found at one place
/// at most in each list, and not in both lists.
pub proof fn lemma_one_connection_per_name(t: ManagerModel, quad: Quad, i: int, j: int)
    requires
        t.wf(),
    ensures
        0 <= i < t.pending.len() && 0 <= j < t.pending.len() && t.pending[i].quad == quad
            && t.pending[j].quad == quad ==> i == j,
        0 <= i < t.streams.len() && 0 <= j < t.streams.len() && t.streams[i].quad == quad
            && t.streams[j].quad == quad ==> i == j,
        !(0 <= i < t.pending.len() && 0 <= j < t.streams.len() && t.pending[i].quad == quad
            && t.streams[j].quad == quad),
{
    if 0 <= i < t.pending.len() && 0 <= j < t.pending.len() && i != j {
        assert(quads(t.pending)[i] == t.pending[i].quad);
        assert(quads(t.pending)[j] == t.pending[j].quad);
        if i < j {
            assert(quads(t.pending)[i] != quads(t.pending)[j]);
        } else {
            assert(quads(t.pending)[j] != quads(t.pending)[i]);
        }
    }
    if 0 <= i < t.streams.len() && 0 <= j < t.streams.len() && i != j {
        assert(quads(t.streams)[i] == t.streams[i].quad);
        assert(quads(t.streams)[j] == t.streams[j].quad);
        if i < j {
            assert(quads(t.streams)[i] != quads(t.streams)[j]);
        } else {
            assert(quads(t.streams)[j] != quads(t.streams)[i]);
        }
    }
}

/// Every call and every event keeps the table well formed.
pub proof fn lemma_table_stays_wf(
    t: ManagerModel,
    port: u16,
    local: u32,
    remote: Dual,
    frame: Seq<u8>,
    now: u64,
)
    requires
        t.wf(),
    ensures
        ManagerModel::empty().wf(),
        t.bind(port).wf(),
        t.unbind(port).wf(),
        t.accept(port).wf(),
        t.can_connect(local, remote) ==> t.connect(local, remote).wf(),
        t.on_frame(frame, now).table.wf(),
        t.on_tick(now).wf(),
{
    lemma_calls_wf(t, port, local, remote);
    lemma_table_tick_wf(t, now);
    if frame.len() <= 65535 {
        if let Some((h, offset)) = crate::codec::decoded(frame) {
            lemma_route_wf(t, h, frame.subrange(offset as int, frame.len() as int), now);
        }
    }
    let e = ManagerModel::empty();
    assert(quads(e.pending) =~= Seq::empty());
    assert(quads(e.streams) =~= Seq::empty());
    assert(ports(e.established) =~= Seq::empty());
}

} // verus!

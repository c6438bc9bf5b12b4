//! Arithmetic on 32-bit sequence numbers, which live on a circle of 2^32
//! points.

use vstd::prelude::*;

verus! {

/// The number of points on the sequence circle.
pub open spec fn circle() -> int {
    0x1_0000_0000
}

/// How far `a` lies ahead of `b` on the circle, walking forward from `b`.
#[verifier::opaque]
pub open spec fn ahead(a: u32, b: u32) -> int {
    (a - b) % circle()
}

/// The sequence number `n` steps after `a`.
#[verifier::opaque]
pub open spec fn advance(a: u32, n: int) -> u32 {
    ((a + n) % circle()) as u32
}

/// `lhs` precedes `rhs`: walking forward from `rhs` to `lhs` takes more than
/// half the circle.
pub open spec fn precedes(lhs: u32, rhs: u32) -> bool {
    ahead(lhs, rhs) > 0x8000_0000
}

/// `x` lies strictly inside the open interval from `start` to `end`.
pub open spec fn strictly_between(start: u32, x: u32, end: u32) -> bool {
    precedes(start, x) && precedes(x, end)
}

/// `x` lies in the window of `wnd` numbers that starts at `nxt`.
pub open spec fn in_window(x: u32, nxt: u32, wnd: u16) -> bool {
    strictly_between(advance(nxt, -1), x, advance(nxt, wnd as int))
}

/// Whether a segment that starts at `seq` and occupies `len` sequence numbers
/// is acceptable to a receiver that expects `nxt` and offers `wnd`.
pub open spec fn acceptable(seq: u32, len: u32, nxt: u32, wnd: u16) -> bool {
    if len == 0 {
        if wnd == 0 {
            seq == nxt
        } else {
            in_window(seq, nxt, wnd)
        }
    } else {
        wnd > 0 && (in_window(seq, nxt, wnd) || in_window(advance(seq, len - 1), nxt, wnd))
    }
}

/// Wrap-around "less than" on sequence numbers.
pub fn wrapping_lt(lhs: u32, rhs: u32) -> (r: bool)
    ensures
        r == precedes(lhs, rhs),
{
    reveal(ahead);
    lhs.wrapping_sub(rhs) > 0x8000_0000u32
}

/// Whether `x` lies strictly between `start` and `end` on the circle.
pub fn is_between_wrapped(start: u32, x: u32, end: u32) -> (r: bool)
    ensures
        r == strictly_between(start, x, end),
{
    wrapping_lt(start, x) && wrapping_lt(x, end)
}

/// `a` moved forward by `n`, wrapping at 2^32.
pub fn seq_add(a: u32, n: u32) -> (r: u32)
    ensures
        r == advance(a, n as int),
{
    reveal(advance);
    a.wrapping_add(n)
}

/// `a` moved back by `n`, wrapping at 2^32.
pub fn seq_sub(a: u32, n: u32) -> (r: u32)
    ensures
        r == advance(a, -(n as int)),
        r as int == ahead(a, n),
{
    reveal(advance);
    reveal(ahead);
    a.wrapping_sub(n)
}

/// The acceptability test of an incoming segment.
pub fn is_acceptable(seq: u32, len: u32, nxt: u32, wnd: u16) -> (r: bool)
    ensures
        r == acceptable(seq, len, nxt, wnd),
{
    let wnd32: u32 = wnd as u32;
    let lo = seq_sub(nxt, 1);
    let hi = seq_add(nxt, wnd32);
    if len == 0 && wnd == 0 {
        seq == nxt
    } else if len == 0 {
        is_between_wrapped(lo, seq, hi)
    } else if wnd == 0 {
        false
    } else {
        let last = seq_sub(seq_add(seq, len), 1);
        proof {
            lemma_advance_twice(seq, len as int, -1);
        }
        is_between_wrapped(lo, seq, hi) || is_between_wrapped(lo, last, hi)
    }
}

/// Advancing twice is advancing once by the sum.
pub proof fn lemma_advance_twice(a: u32, n: int, m: int)
    ensures
        advance(advance(a, n), m) == advance(a, n + m),
{
    reveal(advance);
    let c = circle();
    let q = (a + n) / c;
    assert((a + n) == q * c + (a + n) % c) by (nonlinear_arith)
        requires c == 0x1_0000_0000, q == (a + n) / c;
    assert(((a + n) % c + m) % c == (a + n + m) % c) by (nonlinear_arith)
        requires c == 0x1_0000_0000, (a + n) == q * c + (a + n) % c;
}

/// Moving both numbers by the same amount keeps their distance.
pub proof fn lemma_ahead_shift(a: u32, b: u32, d: int)
    ensures
        ahead(advance(a, d), advance(b, d)) == ahead(a, b),
{
    reveal(advance);
    reveal(ahead);
    let c = circle();
    let qa = (a + d) / c;
    let qb = (b + d) / c;
    assert((a + d) == qa * c + (a + d) % c) by (nonlinear_arith)
        requires c == 0x1_0000_0000, qa == (a + d) / c;
    assert((b + d) == qb * c + (b + d) % c) by (nonlinear_arith)
        requires c == 0x1_0000_0000, qb == (b + d) / c;
    assert(((a + d) % c - (b + d) % c) % c == (a - b) % c) by (nonlinear_arith)
        requires
            c == 0x1_0000_0000,
            (a + d) == qa * c + (a + d) % c,
            (b + d) == qb * c + (b + d) % c;
}

/// The order of two sequence numbers depends only on their distance: it
/// survives any rotation of the circle, a wrap past 2^32 included.
pub proof fn lemma_precedes_shift(a: u32, b: u32, d: int)
    ensures
        precedes(advance(a, d), advance(b, d)) == precedes(a, b),
{
    lemma_ahead_shift(a, b, d);
}

/// The acceptability test is symmetric under rotation: a segment and a
/// receive window moved together by `d`, across the wrap or not, are accepted
/// exactly when the unmoved pair is.
pub proof fn lemma_acceptable_shift(seq: u32, len: u32, nxt: u32, wnd: u16, d: int)
    ensures
        acceptable(advance(seq, d), len, advance(nxt, d), wnd) == acceptable(seq, len, nxt, wnd),
{
    lemma_in_window_shift(seq, nxt, wnd, d);
    lemma_in_window_shift(advance(seq, len - 1), nxt, wnd, d);
    lemma_advance_twice(seq, d, len - 1);
    lemma_advance_twice(seq, len - 1, d);
    lemma_advance_injective(seq, nxt, d);
}

/// Window membership is symmetric under rotation.
pub proof fn lemma_in_window_shift(x: u32, nxt: u32, wnd: u16, d: int)
    ensures
        in_window(advance(x, d), advance(nxt, d), wnd) == in_window(x, nxt, wnd),
{
    lemma_advance_twice(nxt, d, -1);
    lemma_advance_twice(nxt, -1, d);
    lemma_advance_twice(nxt, d, wnd as int);
    lemma_advance_twice(nxt, wnd as int, d);
    lemma_precedes_shift(advance(nxt, -1), x, d);
    lemma_precedes_shift(x, advance(nxt, wnd as int), d);
}

/// Rotation maps distinct numbers to distinct numbers.
pub proof fn lemma_advance_injective(a: u32, b: u32, d: int)
    ensures
        (advance(a, d) == advance(b, d)) == (a == b),
{
    lemma_ahead_shift(a, b, d);
    lemma_ahead_range(a, b);
    lemma_ahead_range(advance(a, d), advance(b, d));
}

/// With a closed window only an empty segment at exactly the expected number
/// is acceptable.
pub proof fn lemma_closed_window(seq: u32, len: u32, nxt: u32)
    ensures
        acceptable(seq, len, nxt, 0) == (len == 0 && seq == nxt),
{
}

/// A distance is a number of the circle, and it is zero between a number and
/// itself only.
pub proof fn lemma_ahead_range(a: u32, b: u32)
    ensures
        0 <= ahead(a, b) < circle(),
        ahead(a, b) == 0 <==> a == b,
        a != b ==> ahead(a, b) + ahead(b, a) == circle(),
{
    reveal(ahead);
}

/// Advancing by a distance covers that distance.
pub proof fn lemma_advance_ahead(a: u32, n: int)
    requires
        0 <= n < circle(),
    ensures
        ahead(advance(a, n), a) == n,
        advance(a, 0) == a,
{
    reveal(ahead);
    reveal(advance);
}

/// Advancing by the distance to a number arrives at it.
pub proof fn lemma_ahead_advance(a: u32, b: u32)
    ensures
        advance(a, ahead(b, a)) == b,
{
    reveal(ahead);
    reveal(advance);
}

/// A number that lies on the way from `a` to `c` splits the distance.
pub proof fn lemma_ahead_split(a: u32, b: u32, c: u32)
    requires
        ahead(b, a) <= ahead(c, a),
    ensures
        ahead(c, a) == ahead(c, b) + ahead(b, a),
{
    reveal(ahead);
}

/// Going back by `n` is going forward by the rest of the circle.
pub proof fn lemma_advance_back(a: u32, n: int)
    ensures
        advance(a, n) == advance(a, n + circle()),
        advance(a, n) == advance(a, n - circle()),
{
    reveal(advance);
    let c = circle();
    assert((a + n) % c == (a + n + c) % c) by (nonlinear_arith)
        requires c == 0x1_0000_0000;
    assert((a + n) % c == (a + n - c) % c) by (nonlinear_arith)
        requires c == 0x1_0000_0000;
}

/// A number that lies `d` ahead of another, with `d` positive and under half
/// the circle, comes after it.
pub proof fn lemma_precedes_by_distance(a: u32, b: u32)
    ensures
        precedes(a, b) == (0 < ahead(b, a) < 0x8000_0000),
{
    lemma_ahead_range(a, b);
}

/// Inside a short interval, order is order by distance from its start.
pub proof fn lemma_between_by_distance(lo: u32, x: u32, hi: u32)
    requires
        ahead(hi, lo) < 0x8000_0000,
    ensures
        strictly_between(lo, x, hi) == (0 < ahead(x, lo) < ahead(hi, lo)),
{
    lemma_precedes_by_distance(lo, x);
    lemma_precedes_by_distance(x, hi);
    lemma_ahead_range(x, lo);
    lemma_ahead_range(hi, x);
    lemma_ahead_range(x, hi);
    lemma_ahead_range(hi, lo);
    if ahead(x, lo) <= ahead(hi, lo) {
        lemma_ahead_split(lo, x, hi);
    } else {
        lemma_ahead_split(lo, hi, x);
    }
}

/// The number after `b` lies one further from `a`, short of a full circle.
pub proof fn lemma_ahead_next(a: u32, b: u32, n: int)
    requires
        0 <= n,
        ahead(b, a) + n < circle(),
    ensures
        ahead(advance(b, n), a) == ahead(b, a) + n,
{
    lemma_ahead_range(b, a);
    lemma_ahead_advance(a, b);
    lemma_advance_twice(a, ahead(b, a), n);
    lemma_advance_ahead(a, ahead(b, a) + n);
}

/// The number before `a` lies one step behind it.
pub proof fn lemma_ahead_previous(a: u32, x: u32)
    ensures
        ahead(a, advance(a, -1)) == 1,
        ahead(x, advance(a, -1)) == (if ahead(x, a) + 1 < circle() {
            ahead(x, a) + 1
        } else {
            0
        }),
{
    let p = advance(a, -1);
    lemma_advance_back(a, -1);
    lemma_advance_twice(a, -1, 1);
    lemma_advance_ahead(a, 0);
    lemma_advance_ahead(p, 1);
    lemma_ahead_range(x, a);
    lemma_ahead_range(x, p);
    lemma_ahead_range(a, p);
    if ahead(a, p) <= ahead(x, p) {
        lemma_ahead_split(p, a, x);
    } else {
        assert(ahead(x, p) == 0);
        assert(x == p);
        lemma_ahead_range(p, a);
    }
}

/// An empty segment at the next number expected is acceptable, whatever the
/// window; the next number expected is the first of an open window.
pub proof fn lemma_window_start(nxt: u32, wnd: u16)
    ensures
        acceptable(nxt, 0, nxt, wnd),
        wnd > 0 ==> in_window(nxt, nxt, wnd),
{
    if wnd > 0 {
        let lo = advance(nxt, -1);
        let hi = advance(nxt, wnd as int);
        lemma_ahead_previous(nxt, nxt);
        lemma_ahead_previous(nxt, hi);
        lemma_advance_ahead(nxt, wnd as int);
        lemma_ahead_range(nxt, nxt);
        lemma_between_by_distance(lo, nxt, hi);
    }
}

} // verus!

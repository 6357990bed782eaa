//! Blending between neighbouring regions and the luminosity / per-channel
//! correction applied to the result.

use vstd::prelude::*;

verus! {

/// Centre of an inclusive span, rounded down.
pub open spec fn span_center(s: (int, int)) -> int {
    s.0 + (s.1 - s.0) / 2
}

/// Index before `i` on a ring of `n`.
pub open spec fn prev_index(i: int, n: int) -> int {
    (i + n - 1) % n
}

/// Index after `i` on a ring of `n`.
pub open spec fn next_index(i: int, n: int) -> int {
    (i + 1) % n
}

/// The two regions blended for position `p` of region `i` (of `n`) with span
/// `s`: the previous one and `i` before the centre, `i` and the next one from
/// the centre on.
pub open spec fn blend_pair(i: int, n: int, s: (int, int), p: int) -> (int, int) {
    if p < span_center(s) {
        (prev_index(i, n), i)
    } else {
        (i, next_index(i, n))
    }
}

/// Weight, out of 100, of the second region of the blend pair: from 0 at the
/// span's start to 100 at its centre, then from 0 at the centre to 100 at its
/// end. A span of one position has weight 0 at its centre.
pub open spec fn blend_weight(s: (int, int), p: int) -> int {
    let c = span_center(s);
    if p < c {
        100 * (p - s.0) / (c - s.0)
    } else if s.1 == c {
        0
    } else {
        100 * (p - c) / (s.1 - c)
    }
}

/// Weight, out of 100, of the region that owns the span.
pub open spec fn own_weight(s: (int, int), p: int) -> int {
    if p < span_center(s) {
        blend_weight(s, p)
    } else {
        100 - blend_weight(s, p)
    }
}

/// `t` parts of `c2` to `100 - t` parts of `c1`, truncated.
pub open spec fn blend_channel(t: int, c1: int, c2: int) -> int {
    (t * c2 + (100 - t) * c1) / 100
}

/// A channel scaled by the luminosity percentage and the channel's correction
/// percentage, each division truncating.
pub open spec fn corrected(luminosity: int, correction: int, value: int) -> int {
    luminosity * correction * value / 100 / 100
}

/// The blend weight of a position within its span, computed as
/// `blend_weight`; `true` when the pair is (this region, next region).
pub fn blend_weight_of(start: u32, end: u32, position: u32) -> (r: (bool, u64))
    requires
        start <= position <= end,
    ensures
        r.0 == (position >= span_center((start as int, end as int))),
        r.1 == blend_weight((start as int, end as int), position as int),
        r.1 <= 100,
{
    let center = start + (end - start) / 2;
    proof {
        lemma_blend_weight_bounds((start as int, end as int), position as int);
    }
    if position < center {
        (false, 100 * ((position - start) as u64) / ((center - start) as u64))
    } else if end == center {
        (true, 0)
    } else {
        (true, 100 * ((position - center) as u64) / ((end - center) as u64))
    }
}

/// `blend_channel` on 8-bit channels.
pub fn blend_channel_value(t: u64, c1: u8, c2: u8) -> (r: u8)
    requires
        t <= 100,
    ensures
        r == blend_channel(t as int, c1 as int, c2 as int),
{
    proof {
        lemma_blend_between(t as int, c1 as int, c2 as int);
    }
    ((t * c2 as u64 + (100 - t) * c1 as u64) / 100) as u8
}

/// A channel value capped at 255.
pub open spec fn capped(v: int) -> u8 {
    if v > 255 {
        255
    } else {
        v as u8
    }
}

/// `corrected`, capped at 255.
pub fn correct_channel(luminosity: u32, correction: u32, value: u8) -> (r: u8)
    ensures
        r == capped(corrected(luminosity as int, correction as int, value as int)),
{
    let l = luminosity as u128;
    let c = correction as u128;
    let v = value as u128;
    proof {
        assert(l * c <= 0xffff_ffff * 0xffff_ffff) by (nonlinear_arith)
            requires
                l <= 0xffff_ffff,
                c <= 0xffff_ffff,
        ;
        assert(l * c * v <= 0xffff_ffff * 0xffff_ffff * 255) by (nonlinear_arith)
            requires
                l * c <= 0xffff_ffff * 0xffff_ffff,
                v <= 255,
        ;
    }
    let x = l * c * v / 100 / 100;
    if x > 255 {
        255
    } else {
        x as u8
    }
}

proof fn lemma_blend_weight_bounds(s: (int, int), p: int)
    requires
        s.0 <= p <= s.1,
    ensures
        0 <= blend_weight(s, p) <= 100,
        0 <= own_weight(s, p) <= 100,
{
    let c = span_center(s);
    if p < c {
        assert(0 <= 100 * (p - s.0) / (c - s.0) <= 100) by (nonlinear_arith)
            requires
                s.0 <= p < c,
        ;
    } else if s.1 != c {
        assert(0 <= 100 * (p - c) / (s.1 - c) <= 100) by (nonlinear_arith)
            requires
                c <= p <= s.1,
                c < s.1,
        ;
    }
}

/// A blend of two channels lies between them, and is exact at either weight end.
pub proof fn lemma_blend_between(t: int, c1: int, c2: int)
    requires
        0 <= t <= 100,
        0 <= c1 <= 255,
        0 <= c2 <= 255,
    ensures
        c1 <= c2 ==> c1 <= blend_channel(t, c1, c2) <= c2,
        c2 <= c1 ==> c2 <= blend_channel(t, c1, c2) <= c1,
        t == 0 ==> blend_channel(t, c1, c2) == c1,
        t == 100 ==> blend_channel(t, c1, c2) == c2,
{
    let x = t * c2 + (100 - t) * c1;
    if t == 100 {
        assert(x == 100 * c2) by (nonlinear_arith)
            requires
                t == 100,
                x == t * c2 + (100 - t) * c1,
        ;
    }
    if t == 0 {
        assert(x == 100 * c1) by (nonlinear_arith)
            requires
                t == 0,
                x == t * c2 + (100 - t) * c1,
        ;
    }
    if c1 <= c2 {
        assert(100 * c1 <= x <= 100 * c2) by (nonlinear_arith)
            requires
                0 <= t <= 100,
                c1 <= c2,
                x == t * c2 + (100 - t) * c1,
        ;
    } else {
        assert(100 * c2 <= x <= 100 * c1) by (nonlinear_arith)
            requires
                0 <= t <= 100,
                c2 <= c1,
                x == t * c2 + (100 - t) * c1,
        ;
    }
}

/// The owning region's weight rises from 0 at its span's start to 100 at the
/// centre, then falls back to 0 at its end, never moving against that course;
/// every weight lies between 0 and 100.
pub proof fn lemma_own_weight_profile(s: (int, int), p: int, q: int)
    requires
        s.0 <= p <= q <= s.1,
    ensures
        0 <= blend_weight(s, p) <= 100,
        0 <= own_weight(s, p) <= 100,
        q < span_center(s) ==> own_weight(s, p) <= own_weight(s, q),
        span_center(s) <= p ==> own_weight(s, q) <= own_weight(s, p),
        own_weight(s, span_center(s)) == 100,
        s.0 < span_center(s) ==> own_weight(s, s.0) == 0,
        span_center(s) < s.1 ==> own_weight(s, s.1) == 0,
{
    let c = span_center(s);
    lemma_blend_weight_bounds(s, p);
    lemma_blend_weight_bounds(s, q);
    if q < c {
        assert(100 * (p - s.0) / (c - s.0) <= 100 * (q - s.0) / (c - s.0)) by (nonlinear_arith)
            requires
                s.0 <= p <= q < c,
        ;
    }
    if c <= p && c < s.1 {
        assert(100 * (p - c) / (s.1 - c) <= 100 * (q - c) / (s.1 - c)) by (nonlinear_arith)
            requires
                c <= p <= q <= s.1,
                c < s.1,
        ;
    }
    if c < s.1 {
        assert(100 * (s.1 - c) / (s.1 - c) == 100) by (nonlinear_arith)
            requires
                c < s.1,
        ;
    }
    assert(100 * (c - c) == 0);
    assert(100 * (s.0 - s.0) == 0);
}

} // verus!

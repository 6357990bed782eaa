//! Regions ("boxes"): contiguous spans of the ring, each with a sampling
//! rectangle near its stretch of border and an averaged colour.

use vstd::prelude::*;
use crate::color::{CRGB, mean_crgb, mean_color};
use crate::sampling::{set_regular_sampling_points, with_added_points};
use crate::geometry::{
    ScreenGeometry, ScreenSide, ScreenCoord, side_offset, side_len, along_side, coord_to_linear,
    side_of_linear, depth_fits, linear_to_screen, min_u32, max_u32, convert_linear_coord_to_screen_coord,
    switch_corners,
};

verus! {

/// A region of the ring together with what is sampled for it.
#[derive(Debug)]
pub struct Box {
    /// Least corner of the sampling rectangle.
    pub screen_start: ScreenCoord,
    /// Greatest corner of the sampling rectangle (exclusive when sampling).
    pub screen_end: ScreenCoord,
    /// Sample points fixed at construction; empty under per-frame random sampling.
    pub sample_points: Vec<ScreenCoord>,
    pub color: CRGB,
    pub side: ScreenSide,
}

pub open spec fn black() -> CRGB {
    CRGB { r: 0, g: 0, b: 0 }
}

impl Box {
    /// Both corners lie, along the box's side, within that side.
    pub open spec fn on_side(self, g: ScreenGeometry) -> bool {
        &&& along_side(self.screen_start, self.side) < side_len(self.side, g)
        &&& along_side(self.screen_end, self.side) < side_len(self.side, g)
    }

    /// The inclusive ring span `(start, end)` covered by the box.
    pub open spec fn span(self, g: ScreenGeometry) -> (int, int) {
        let a = coord_to_linear(self.screen_start, self.side, g);
        let b = coord_to_linear(self.screen_end, self.side, g);
        if a <= b {
            (a, b)
        } else {
            (b, a)
        }
    }

    /// The sampling rectangle holds at least one pixel.
    pub open spec fn samplable(self) -> bool {
        &&& self.screen_start.x < self.screen_end.x
        &&& self.screen_start.y < self.screen_end.y
    }

    /// A pixel inside the half-open sampling rectangle.
    pub open spec fn contains_point(self, p: ScreenCoord) -> bool {
        &&& self.screen_start.x <= p.x < self.screen_end.x
        &&& self.screen_start.y <= p.y < self.screen_end.y
    }
}

/// First ring position of region `idx` on a side whose regions are `w` wide.
pub open spec fn region_start(side: ScreenSide, g: ScreenGeometry, idx: int, w: int) -> int {
    side_offset(side, g) + idx * w
}

/// Last ring position of region `idx` of `cnt` on a side; the last region
/// runs to the side's end.
pub open spec fn region_end(side: ScreenSide, g: ScreenGeometry, idx: int, cnt: int, w: int) -> int {
    if idx == cnt - 1 {
        side_offset(side, g) + side_len(side, g) - 1
    } else {
        side_offset(side, g) + (idx + 1) * w - 1
    }
}

/// Sampling rectangle of a region: from its first position on the border to
/// its last position `depth` pixels inward, as (least corner, greatest corner).
pub open spec fn region_rect(
    side: ScreenSide,
    g: ScreenGeometry,
    idx: int,
    cnt: int,
    w: int,
    depth: int,
) -> (ScreenCoord, ScreenCoord) {
    let a = linear_to_screen(region_start(side, g, idx, w), g, 0);
    let b = linear_to_screen(region_end(side, g, idx, cnt, w), g, depth);
    (
        ScreenCoord { x: min_u32(a.x, b.x), y: min_u32(a.y, b.y) },
        ScreenCoord { x: max_u32(a.x, b.x), y: max_u32(a.y, b.y) },
    )
}

/// `b` is region `idx` of `cnt` regions `w` wide on `side`, fresh: no sample
/// points and black.
pub open spec fn is_new_region(
    b: Box,
    side: ScreenSide,
    g: ScreenGeometry,
    idx: int,
    cnt: int,
    w: int,
    depth: int,
) -> bool {
    &&& b.side == side
    &&& b.on_side(g)
    &&& b.span(g) == (region_start(side, g, idx, w), region_end(side, g, idx, cnt, w))
    &&& (b.screen_start, b.screen_end) == region_rect(side, g, idx, cnt, w, depth)
    &&& b.sample_points@.len() == 0
    &&& b.color == black()
}

/// Widths that fit: `idx * w` and `(idx + 1) * w` stay within a side of `len`.
pub proof fn lemma_region_bounds(len: int, cnt: int, w: int, idx: int)
    requires
        1 <= w,
        0 <= idx < cnt,
        cnt * w <= len,
    ensures
        0 <= idx * w,
        idx * w + w <= len,
        (idx + 1) * w == idx * w + w,
{
    assert(0 <= idx * w) by (nonlinear_arith)
        requires
            0 <= idx,
            1 <= w,
    ;
    assert((idx + 1) * w <= cnt * w) by (nonlinear_arith)
        requires
            idx + 1 <= cnt,
            1 <= w,
    ;
    assert((idx + 1) * w == idx * w + w) by (nonlinear_arith);
}

/// The side's region width `len / cnt` is at least one and `cnt` of them fit.
pub proof fn lemma_side_width(len: int, cnt: int)
    requires
        0 < cnt <= len,
    ensures
        1 <= len / cnt,
        cnt * (len / cnt) <= len,
{
    assert(1 <= len / cnt) by (nonlinear_arith)
        requires
            0 < cnt <= len,
    ;
    assert(cnt * (len / cnt) <= len) by (nonlinear_arith)
        requires
            0 < cnt,
    ;
}

impl Box {
    /// Sets the colour from `[red, green, blue]`, each cast to 8 bits.
    pub fn set_color_from_rgb_vec(&mut self, color_vec: Vec<u32>)
        requires
            color_vec@.len() >= 3,
        ensures
            final(self).color == (CRGB {
                r: color_vec@[0] as u8,
                g: color_vec@[1] as u8,
                b: color_vec@[2] as u8,
            }),
            final(self).screen_start == old(self).screen_start,
            final(self).screen_end == old(self).screen_end,
            final(self).sample_points == old(self).sample_points,
            final(self).side == old(self).side,
    {
        self.color = CRGB { r: color_vec[0] as u8, g: color_vec[1] as u8, b: color_vec[2] as u8 };
    }

    /// The box's ring span, read back from its sampling rectangle.
    pub fn get_linear_coord(&self, screen: &ScreenGeometry) -> (r: (u32, u32))
        requires
            screen.wf(),
            self.on_side(*screen),
        ensures
            r.0 == self.span(*screen).0,
            r.1 == self.span(*screen).1,
    {
        let box_linear_start = self.screen_start.convert_to_linear_coord(&self.side, screen);
        let box_linear_end = self.screen_end.convert_to_linear_coord(&self.side, screen);
        if box_linear_start <= box_linear_end {
            (box_linear_start, box_linear_end)
        } else {
            (box_linear_end, box_linear_start)
        }
    }
}

/// Region `idx` of `box_cnt` regions `linear_width` wide on `side`; the last
/// one runs to the side's end. Its rectangle reaches `box_screen_depth`
/// pixels inward.
pub fn new_box(
    idx: u32,
    box_cnt: u32,
    linear_width: u32,
    side: ScreenSide,
    box_screen_depth: u32,
    screen: &ScreenGeometry,
) -> (r: Box)
    requires
        screen.wf(),
        idx < box_cnt,
        1 <= linear_width,
        box_cnt * linear_width <= side_len(side, *screen),
        depth_fits(side, *screen, box_screen_depth as int),
    ensures
        is_new_region(
            r,
            side,
            *screen,
            idx as int,
            box_cnt as int,
            linear_width as int,
            box_screen_depth as int,
        ),
        2 <= linear_width && 1 <= box_screen_depth ==> r.samplable(),
{
    let ghost g = *screen;
    let ghost len = side_len(side, g);
    let ghost off = side_offset(side, g);
    proof {
        lemma_region_bounds(len, box_cnt as int, linear_width as int, idx as int);
    }
    let linear_start = side.get_offset(screen) + idx * linear_width;
    let linear_end = if idx == box_cnt - 1 {
        side.get_side_res(screen) + side.get_offset(screen) - 1
    } else {
        side.get_offset(screen) + (idx + 1) * linear_width - 1
    };
    assert(off <= linear_start <= linear_end < off + len);
    assert(side_of_linear(linear_start as int, g) == side);
    assert(side_of_linear(linear_end as int, g) == side);
    let screen_start = convert_linear_coord_to_screen_coord(linear_start, screen, 0);
    let screen_end = convert_linear_coord_to_screen_coord(linear_end, screen, box_screen_depth);
    let (screen_start, screen_end) = switch_corners(screen_start, screen_end);
    let r = Box { screen_start, screen_end, sample_points: Vec::new(), color: CRGB { r: 0, g: 0, b: 0 }, side };
    assert(r.span(g) == (linear_start as int, linear_end as int));
    r
}

/// Regions on a side: `x_cnt` on each horizontal side, `y_cnt` on each vertical one.
pub open spec fn side_count(side: ScreenSide, x_cnt: int, y_cnt: int) -> int {
    match side {
        ScreenSide::Top | ScreenSide::Bottom => x_cnt,
        ScreenSide::Right | ScreenSide::Left => y_cnt,
    }
}

/// Index, in ring order, of the first region of a side.
pub open spec fn first_region(side: ScreenSide, x_cnt: int, y_cnt: int) -> int {
    match side {
        ScreenSide::Top => 0,
        ScreenSide::Right => x_cnt,
        ScreenSide::Bottom => x_cnt + y_cnt,
        ScreenSide::Left => 2 * x_cnt + y_cnt,
    }
}

/// Total number of regions on the ring.
pub open spec fn region_count(x_cnt: int, y_cnt: int) -> int {
    2 * (x_cnt + y_cnt)
}

/// The side of region `i` in ring order.
pub open spec fn region_side(i: int, x_cnt: int, y_cnt: int) -> ScreenSide {
    if i < x_cnt {
        ScreenSide::Top
    } else if i < x_cnt + y_cnt {
        ScreenSide::Right
    } else if i < 2 * x_cnt + y_cnt {
        ScreenSide::Bottom
    } else {
        ScreenSide::Left
    }
}

/// Width of the regions of a side: the side's length divided by their count.
pub open spec fn side_width(side: ScreenSide, g: ScreenGeometry, x_cnt: int, y_cnt: int) -> int {
    side_len(side, g) / side_count(side, x_cnt, y_cnt)
}

/// Inclusive ring span of region `i` in ring order.
pub open spec fn region_span(g: ScreenGeometry, x_cnt: int, y_cnt: int, i: int) -> (int, int) {
    let side = region_side(i, x_cnt, y_cnt);
    let idx = i - first_region(side, x_cnt, y_cnt);
    let cnt = side_count(side, x_cnt, y_cnt);
    let w = side_width(side, g, x_cnt, y_cnt);
    (region_start(side, g, idx, w), region_end(side, g, idx, cnt, w))
}

/// Sampling rectangle of region `i` in ring order.
pub open spec fn region_rect_at(
    g: ScreenGeometry,
    x_cnt: int,
    y_cnt: int,
    depth: int,
    i: int,
) -> (ScreenCoord, ScreenCoord) {
    let side = region_side(i, x_cnt, y_cnt);
    let idx = i - first_region(side, x_cnt, y_cnt);
    let cnt = side_count(side, x_cnt, y_cnt);
    region_rect(side, g, idx, cnt, side_width(side, g, x_cnt, y_cnt), depth)
}

/// The spans of all regions, in ring order.
pub open spec fn region_spans(g: ScreenGeometry, x_cnt: int, y_cnt: int) -> Seq<(int, int)> {
    Seq::new(region_count(x_cnt, y_cnt) as nat, |i: int| region_span(g, x_cnt, y_cnt, i))
}

/// A layout that divides the border consistently: at least one region and at
/// most one per pixel on each side, and a sampling depth that stays on screen.
pub open spec fn layout_fits(g: ScreenGeometry, x_cnt: int, y_cnt: int, depth: int) -> bool {
    &&& g.wf()
    &&& 0 < x_cnt <= g.x_res
    &&& 0 < y_cnt <= g.y_res
    &&& 0 <= depth < g.x_res
    &&& depth < g.y_res
}

/// A layout whose every sampling rectangle holds a pixel: regions at least two
/// pixels wide and a depth of at least one.
pub open spec fn layout_samplable(g: ScreenGeometry, x_cnt: int, y_cnt: int, depth: int) -> bool {
    &&& layout_fits(g, x_cnt, y_cnt, depth)
    &&& 2 <= g.x_res as int / x_cnt
    &&& 2 <= g.y_res as int / y_cnt
    &&& 1 <= depth
}

/// `p` lies in the inclusive span `s`.
pub open spec fn span_holds(s: (int, int), p: int) -> bool {
    s.0 <= p <= s.1
}

/// Some span of `s` holds `p`.
pub open spec fn in_some_span(s: Seq<(int, int)>, p: int) -> bool {
    exists|i: int| 0 <= i < s.len() && span_holds(#[trigger] s[i], p)
}

/// Spans that follow each other without gap or overlap from 0 to `len - 1`.
pub open spec fn spans_tile(s: Seq<(int, int)>, len: int) -> bool {
    &&& s.len() > 0
    &&& s[0].0 == 0
    &&& s.last().1 == len - 1
    &&& forall|i: int| 0 <= i < s.len() ==> (#[trigger] s[i]).0 <= s[i].1
    &&& forall|i: int| 0 <= i < s.len() - 1 ==> (#[trigger] s[i]).1 + 1 == s[i + 1].0
}

/// The ring spans of a sequence of boxes.
pub open spec fn box_spans(boxes: Seq<Box>, g: ScreenGeometry) -> Seq<(int, int)> {
    boxes.map_values(|b: Box| b.span(g))
}

/// Boxes that can be read on the ring and whose spans tile it in order.
pub open spec fn regions_wf(boxes: Seq<Box>, g: ScreenGeometry) -> bool {
    &&& g.wf()
    &&& forall|i: int| 0 <= i < boxes.len() ==> (#[trigger] boxes[i]).on_side(g)
    &&& spans_tile(box_spans(boxes, g), g.ring_len())
}

proof fn lemma_tile_ordered(s: Seq<(int, int)>, len: int, i: int, j: int)
    requires
        spans_tile(s, len),
        0 <= i < j < s.len(),
    ensures
        s[i].1 < s[j].0,
    decreases j - i,
{
    if j > i + 1 {
        lemma_tile_ordered(s, len, i, j - 1);
        assert(s[j - 1].1 + 1 == s[j - 1 + 1].0);
    } else {
        assert(s[i].1 + 1 == s[i + 1].0);
    }
}

proof fn lemma_tile_covers(s: Seq<(int, int)>, len: int, k: int, p: int)
    requires
        spans_tile(s, len),
        0 <= k < s.len(),
        0 <= p <= s[k].1,
    ensures
        exists|i: int| 0 <= i <= k && span_holds(#[trigger] s[i], p),
    decreases k,
{
    if k == 0 {
        assert(span_holds(s[0], p));
    } else if p <= s[k - 1].1 {
        lemma_tile_covers(s, len, k - 1, p);
        let i = choose|i: int| 0 <= i <= k - 1 && span_holds(#[trigger] s[i], p);
        assert(span_holds(s[i], p));
    } else {
        assert(s[k - 1].1 + 1 == s[k - 1 + 1].0);
        assert(span_holds(s[k], p));
    }
}

/// Spans that tile `[0, len)` partition it: each position lies in exactly one
/// span, and every span lies inside it.
pub proof fn lemma_tile_partition(s: Seq<(int, int)>, len: int)
    requires
        spans_tile(s, len),
    ensures
        forall|p: int| 0 <= p < len ==> #[trigger] in_some_span(s, p),
        forall|i: int, j: int, p: int|
            0 <= i < s.len() && 0 <= j < s.len() && #[trigger] span_holds(s[i], p) && #[trigger] span_holds(s[j], p) ==> i == j,
        forall|i: int| 0 <= i < s.len() ==> 0 <= (#[trigger] s[i]).0 <= s[i].1 < len,
{
    assert forall|p: int| 0 <= p < len implies #[trigger] in_some_span(s, p) by {
        lemma_tile_covers(s, len, s.len() - 1, p);
    }
    assert forall|i: int, j: int, p: int|
        0 <= i < s.len() && 0 <= j < s.len() && #[trigger] span_holds(s[i], p) && #[trigger] span_holds(s[j], p) implies i == j by {
        if i < j {
            lemma_tile_ordered(s, len, i, j);
        } else if j < i {
            lemma_tile_ordered(s, len, j, i);
        }
    }
    assert forall|i: int| 0 <= i < s.len() implies 0 <= (#[trigger] s[i]).0 <= s[i].1 < len by {
        if i > 0 {
            lemma_tile_ordered(s, len, 0, i);
        }
        if i < s.len() - 1 {
            lemma_tile_ordered(s, len, i, s.len() - 1);
        }
    }
}

proof fn lemma_region_span_facts(g: ScreenGeometry, x_cnt: int, y_cnt: int, depth: int, i: int)
    requires
        layout_fits(g, x_cnt, y_cnt, depth),
        0 <= i < region_count(x_cnt, y_cnt),
    ensures
        ({
            let side = region_side(i, x_cnt, y_cnt);
            let s = region_span(g, x_cnt, y_cnt, i);
            &&& side_offset(side, g) <= s.0 <= s.1 < side_offset(side, g) + side_len(side, g)
            &&& 0 <= i - first_region(side, x_cnt, y_cnt) < side_count(side, x_cnt, y_cnt)
            &&& 1 <= side_width(side, g, x_cnt, y_cnt)
            &&& side_count(side, x_cnt, y_cnt) * side_width(side, g, x_cnt, y_cnt) <= side_len(
                side,
                g,
            )
        }),
        i + 1 < region_count(x_cnt, y_cnt) ==> region_span(g, x_cnt, y_cnt, i).1 + 1
            == region_span(g, x_cnt, y_cnt, i + 1).0,
{
    let side = region_side(i, x_cnt, y_cnt);
    let cnt = side_count(side, x_cnt, y_cnt);
    let idx = i - first_region(side, x_cnt, y_cnt);
    let len = side_len(side, g);
    lemma_side_width(len, cnt);
    let w = len / cnt;
    lemma_region_bounds(len, cnt, w, idx);
    if i + 1 < region_count(x_cnt, y_cnt) {
        let side2 = region_side(i + 1, x_cnt, y_cnt);
        let w2 = side_width(side2, g, x_cnt, y_cnt);
        assert(0 * w2 == 0);
        if idx + 1 < cnt {
            assert(side2 == side);
        }
    }
}

/// The spans of a consistent layout tile the ring in ring order.
pub proof fn lemma_region_spans_tile(g: ScreenGeometry, x_cnt: int, y_cnt: int, depth: int)
    requires
        layout_fits(g, x_cnt, y_cnt, depth),
    ensures
        spans_tile(region_spans(g, x_cnt, y_cnt), g.ring_len()),
{
    let s = region_spans(g, x_cnt, y_cnt);
    let n = region_count(x_cnt, y_cnt);
    assert forall|i: int| 0 <= i < s.len() implies (#[trigger] s[i]).0 <= s[i].1 by {
        lemma_region_span_facts(g, x_cnt, y_cnt, depth, i);
    }
    assert forall|i: int| 0 <= i < s.len() - 1 implies (#[trigger] s[i]).1 + 1 == s[i + 1].0 by {
        lemma_region_span_facts(g, x_cnt, y_cnt, depth, i);
    }
    assert(0 * side_width(ScreenSide::Top, g, x_cnt, y_cnt) == 0);
    lemma_region_span_facts(g, x_cnt, y_cnt, depth, n - 1);
}

/// Region spans partition the ring: for a consistent layout, every ring
/// position lies in exactly one region's span, and every span lies on the ring.
pub proof fn lemma_regions_partition_ring(g: ScreenGeometry, x_cnt: int, y_cnt: int, depth: int)
    requires
        layout_fits(g, x_cnt, y_cnt, depth),
    ensures
        forall|p: int|
            0 <= p < g.ring_len() ==> #[trigger] in_some_span(region_spans(g, x_cnt, y_cnt), p),
        forall|i: int, j: int, p: int|
            0 <= i < region_count(x_cnt, y_cnt) && 0 <= j < region_count(x_cnt, y_cnt)
                && #[trigger] span_holds(region_span(g, x_cnt, y_cnt, i), p)
                && #[trigger] span_holds(region_span(g, x_cnt, y_cnt, j), p) ==> i == j,
        forall|i: int|
            0 <= i < region_count(x_cnt, y_cnt) ==> 0 <= (#[trigger] region_span(
                g,
                x_cnt,
                y_cnt,
                i,
            )).0 <= region_span(g, x_cnt, y_cnt, i).1 < g.ring_len(),
{
    let s = region_spans(g, x_cnt, y_cnt);
    lemma_region_spans_tile(g, x_cnt, y_cnt, depth);
    lemma_tile_partition(s, g.ring_len());
    assert forall|i: int, j: int, p: int|
        0 <= i < region_count(x_cnt, y_cnt) && 0 <= j < region_count(x_cnt, y_cnt)
            && #[trigger] span_holds(region_span(g, x_cnt, y_cnt, i), p)
                && #[trigger] span_holds(region_span(g, x_cnt, y_cnt, j), p) implies i == j by {
        assert(span_holds(s[i], p) && span_holds(s[j], p));
    }
    assert forall|i: int| 0 <= i < region_count(x_cnt, y_cnt) implies 0 <= (
    #[trigger] region_span(g, x_cnt, y_cnt, i)).0 <= region_span(g, x_cnt, y_cnt, i).1
        < g.ring_len() by {
        assert(s[i] == region_span(g, x_cnt, y_cnt, i));
    }
}

/// `b` is region `i` of the layout, in ring order, with its sampling
/// rectangle and a black colour.
#[verifier::opaque]
pub open spec fn is_region(
    b: Box,
    g: ScreenGeometry,
    x_cnt: int,
    y_cnt: int,
    depth: int,
    i: int,
) -> bool {
    &&& b.side == region_side(i, x_cnt, y_cnt)
    &&& b.on_side(g)
    &&& b.span(g) == region_span(g, x_cnt, y_cnt, i)
    &&& (b.screen_start, b.screen_end) == region_rect_at(g, x_cnt, y_cnt, depth, i)
    &&& b.color == black()
}

proof fn lemma_region_span_of(b: Box, g: ScreenGeometry, x_cnt: int, y_cnt: int, depth: int, i: int)
    requires
        is_region(b, g, x_cnt, y_cnt, depth, i),
    ensures
        b.span(g) == region_span(g, x_cnt, y_cnt, i),
        b.on_side(g),
{
    reveal(is_region);
}

proof fn lemma_region_resampled(
    a: Box,
    b: Box,
    g: ScreenGeometry,
    x_cnt: int,
    y_cnt: int,
    depth: int,
    i: int,
    n: int,
)
    requires
        is_region(a, g, x_cnt, y_cnt, depth, i),
        a.sample_points@.len() == 0,
        with_added_points(a, b, n),
    ensures
        is_region(b, g, x_cnt, y_cnt, depth, i),
        b.samplable() == a.samplable(),
        b.sample_points@.len() == n,
        forall|j: int| 0 <= j < n ==> b.contains_point(#[trigger] b.sample_points@[j]),
{
    reveal(is_region);
}

proof fn lemma_regions_wf(bs: Seq<Box>, g: ScreenGeometry, x_cnt: int, y_cnt: int, depth: int)
    requires
        layout_fits(g, x_cnt, y_cnt, depth),
        bs.len() == region_count(x_cnt, y_cnt),
        forall|i: int| 0 <= i < bs.len() ==> is_region(#[trigger] bs[i], g, x_cnt, y_cnt, depth, i),
    ensures
        regions_wf(bs, g),
{
    assert forall|i: int| 0 <= i < bs.len() implies (#[trigger] bs[i]).span(g) == region_span(
        g,
        x_cnt,
        y_cnt,
        i,
    ) && bs[i].on_side(g) by {
        lemma_region_span_of(bs[i], g, x_cnt, y_cnt, depth, i);
    }
    assert(box_spans(bs, g) =~= region_spans(g, x_cnt, y_cnt));
    lemma_region_spans_tile(g, x_cnt, y_cnt, depth);
}

/// Appends the regions of one side, in ring order, after those of the sides
/// before it.
fn push_side_boxes(
    boxes: &mut Vec<Box>,
    side: ScreenSide,
    x_box_cnt: u32,
    y_box_cnt: u32,
    box_cnt: u32,
    linear_width: u32,
    box_screen_depth: u32,
    screen: &ScreenGeometry,
)
    requires
        layout_fits(*screen, x_box_cnt as int, y_box_cnt as int, box_screen_depth as int),
        box_cnt == side_count(side, x_box_cnt as int, y_box_cnt as int),
        linear_width == side_width(side, *screen, x_box_cnt as int, y_box_cnt as int),
        old(boxes)@.len() == first_region(side, x_box_cnt as int, y_box_cnt as int),
    ensures
        final(boxes)@.len() == old(boxes)@.len() + box_cnt,
        forall|j: int| 0 <= j < old(boxes)@.len() ==> #[trigger] final(boxes)@[j] == old(boxes)@[j],
        forall|j: int|
            old(boxes)@.len() <= j < final(boxes)@.len() ==> is_region(
                #[trigger] final(boxes)@[j],
                *screen,
                x_box_cnt as int,
                y_box_cnt as int,
                box_screen_depth as int,
                j,
            ),
        layout_samplable(*screen, x_box_cnt as int, y_box_cnt as int, box_screen_depth as int)
            ==> forall|j: int|
            old(boxes)@.len() <= j < final(boxes)@.len() ==> (#[trigger] final(boxes)@[j]).samplable(),
        forall|j: int|
            old(boxes)@.len() <= j < final(boxes)@.len()
                ==> (#[trigger] final(boxes)@[j]).sample_points@.len() == 0,
{
    let ghost g = *screen;
    let ghost xc = x_box_cnt as int;
    let ghost yc = y_box_cnt as int;
    let ghost depth = box_screen_depth as int;
    let ghost start = old(boxes)@.len();
    proof {
        lemma_side_width(side_len(side, g), box_cnt as int);
    }
    let mut idx: u32 = 0;
    while idx < box_cnt
        invariant
            g == *screen,
            xc == x_box_cnt as int,
            yc == y_box_cnt as int,
            depth == box_screen_depth as int,
            layout_fits(g, xc, yc, depth),
            box_cnt == side_count(side, xc, yc),
            linear_width == side_width(side, g, xc, yc),
            1 <= linear_width,
            box_cnt * linear_width <= side_len(side, g),
            start == first_region(side, xc, yc),
            idx <= box_cnt,
            start == old(boxes)@.len(),
            boxes@.len() == start + idx,
            forall|j: int| 0 <= j < start ==> #[trigger] boxes@[j] == old(boxes)@[j],
            forall|j: int| start <= j < boxes@.len() ==> is_region(#[trigger] boxes@[j], g, xc, yc, depth, j),
            layout_samplable(g, xc, yc, depth) ==> forall|j: int|
                start <= j < boxes@.len() ==> (#[trigger] boxes@[j]).samplable(),
            forall|j: int| start <= j < boxes@.len() ==> (#[trigger] boxes@[j]).sample_points@.len() == 0,
        decreases box_cnt - idx,
    {
        let b = new_box(idx, box_cnt, linear_width, side, box_screen_depth, screen);
        let ghost j = start + idx;
        assert(region_side(j, xc, yc) == side);
        assert(is_region(b, g, xc, yc, depth, j)) by {
            reveal(is_region);
        }
        boxes.push(b);
        idx = idx + 1;
    }
}

/// Builds the regions of the ring, side by side in ring order, and, under
/// fixed sampling, gives each `sampling_size` sample points.
pub fn get_boxes(
    screen: &ScreenGeometry,
    x_box_cnt: u32,
    y_box_cnt: u32,
    boxes_linear_depth: u32,
    sampling_size: u32,
    random_sampling: bool,
) -> (r: Vec<Box>)
    requires
        layout_fits(*screen, x_box_cnt as int, y_box_cnt as int, boxes_linear_depth as int),
        !random_sampling && sampling_size > 0 ==> layout_samplable(
            *screen,
            x_box_cnt as int,
            y_box_cnt as int,
            boxes_linear_depth as int,
        ),
    ensures
        r@.len() == region_count(x_box_cnt as int, y_box_cnt as int),
        regions_wf(r@, *screen),
        forall|i: int|
            0 <= i < r@.len() ==> is_region(
                #[trigger] r@[i],
                *screen,
                x_box_cnt as int,
                y_box_cnt as int,
                boxes_linear_depth as int,
                i,
            ),
        layout_samplable(*screen, x_box_cnt as int, y_box_cnt as int, boxes_linear_depth as int)
            ==> forall|i: int| 0 <= i < r@.len() ==> (#[trigger] r@[i]).samplable(),
        random_sampling ==> forall|i: int|
            0 <= i < r@.len() ==> (#[trigger] r@[i]).sample_points@.len() == 0,
        !random_sampling ==> forall|i: int|
            0 <= i < r@.len() ==> (#[trigger] r@[i]).sample_points@.len() == sampling_size,
        !random_sampling ==> forall|i: int, j: int|
            0 <= i < r@.len() && 0 <= j < sampling_size ==> (#[trigger] r@[i]).contains_point(
                #[trigger] r@[i].sample_points@[j],
            ),
{
    let ghost g = *screen;
    let ghost xc = x_box_cnt as int;
    let ghost yc = y_box_cnt as int;
    let ghost depth = boxes_linear_depth as int;
    let mut boxes: Vec<Box> = Vec::new();
    let x_width = screen.x_res / x_box_cnt;
    let y_width = screen.y_res / y_box_cnt;
    push_side_boxes(&mut boxes, ScreenSide::Top, x_box_cnt, y_box_cnt, x_box_cnt, x_width, boxes_linear_depth, screen);
    assert forall|i: int| 0 <= i < boxes@.len() implies is_region(#[trigger] boxes@[i], g, xc, yc, depth, i)
        && (layout_samplable(g, xc, yc, depth) ==> boxes@[i].samplable())
        && boxes@[i].sample_points@.len() == 0 by {}
    push_side_boxes(&mut boxes, ScreenSide::Right, x_box_cnt, y_box_cnt, y_box_cnt, y_width, boxes_linear_depth, screen);
    assert forall|i: int| 0 <= i < boxes@.len() implies is_region(#[trigger] boxes@[i], g, xc, yc, depth, i)
        && (layout_samplable(g, xc, yc, depth) ==> boxes@[i].samplable())
        && boxes@[i].sample_points@.len() == 0 by {}
    push_side_boxes(&mut boxes, ScreenSide::Bottom, x_box_cnt, y_box_cnt, x_box_cnt, x_width, boxes_linear_depth, screen);
    assert forall|i: int| 0 <= i < boxes@.len() implies is_region(#[trigger] boxes@[i], g, xc, yc, depth, i)
        && (layout_samplable(g, xc, yc, depth) ==> boxes@[i].samplable())
        && boxes@[i].sample_points@.len() == 0 by {}
    push_side_boxes(&mut boxes, ScreenSide::Left, x_box_cnt, y_box_cnt, y_box_cnt, y_width, boxes_linear_depth, screen);
    assert forall|i: int| 0 <= i < boxes@.len() implies is_region(#[trigger] boxes@[i], g, xc, yc, depth, i)
        && (layout_samplable(g, xc, yc, depth) ==> boxes@[i].samplable())
        && boxes@[i].sample_points@.len() == 0 by {}
    if !random_sampling {
        let ghost built = boxes@;
        set_regular_sampling_points(&mut boxes, sampling_size);
        assert forall|i: int| 0 <= i < boxes@.len() implies is_region(
            #[trigger] boxes@[i],
            g,
            xc,
            yc,
            depth,
            i,
        ) && (layout_samplable(g, xc, yc, depth) ==> boxes@[i].samplable())
            && boxes@[i].sample_points@.len() == sampling_size && (forall|j: int|
            0 <= j < sampling_size ==> boxes@[i].contains_point(#[trigger] boxes@[i].sample_points@[j])) by {
            assert(with_added_points(built[i], boxes@[i], sampling_size as int));
            lemma_region_resampled(built[i], boxes@[i], g, xc, yc, depth, i, sampling_size as int);
        }
    }
    proof {
        lemma_regions_wf(boxes@, g, xc, yc, depth);
    }
    boxes
}

/// Whether a layout is consistent and every region can be sampled.
pub fn layout_is_samplable(
    screen: &ScreenGeometry,
    x_box_cnt: u32,
    y_box_cnt: u32,
    boxes_linear_depth: u32,
) -> (r: bool)
    ensures
        r == layout_samplable(
            *screen,
            x_box_cnt as int,
            y_box_cnt as int,
            boxes_linear_depth as int,
        ),
{
    let ring: u64 = 2 * (screen.x_res as u64 + screen.y_res as u64);
    screen.x_res > 0 && screen.y_res > 0 && ring <= u32::MAX as u64 && x_box_cnt > 0 && x_box_cnt
        <= screen.x_res && y_box_cnt > 0 && y_box_cnt <= screen.y_res && boxes_linear_depth
        < screen.x_res && boxes_linear_depth < screen.y_res && 2 <= screen.x_res / x_box_cnt && 2
        <= screen.y_res / y_box_cnt && 1 <= boxes_linear_depth
}

/// Sets each box's colour to the mean of the colours sampled for it this
/// frame; `samples[i]` holds those of box `i`.
pub fn color_boxes(boxes: &mut Vec<Box>, samples: &Vec<Vec<CRGB>>)
    requires
        samples@.len() == old(boxes)@.len(),
        forall|i: int| 0 <= i < samples@.len() ==> 0 < (#[trigger] samples@[i])@.len() <= u32::MAX,
    ensures
        final(boxes)@.len() == old(boxes)@.len(),
        forall|i: int|
            0 <= i < final(boxes)@.len() ==> (#[trigger] final(boxes)@[i]).color == mean_crgb(
                samples@[i]@,
            ),
        forall|i: int|
            0 <= i < final(boxes)@.len() ==> {
                &&& (#[trigger] final(boxes)@[i]).screen_start == old(boxes)@[i].screen_start
                &&& final(boxes)@[i].screen_end == old(boxes)@[i].screen_end
                &&& final(boxes)@[i].sample_points == old(boxes)@[i].sample_points
                &&& final(boxes)@[i].side == old(boxes)@[i].side
            },
{
    let ghost before = boxes@;
    let mut i: usize = 0;
    while i < boxes.len()
        invariant
            i <= boxes@.len() == before.len() == samples@.len(),
            before == old(boxes)@,
            forall|k: int| 0 <= k < samples@.len() ==> 0 < (#[trigger] samples@[k])@.len() <= u32::MAX,
            forall|k: int| i <= k < boxes@.len() ==> #[trigger] boxes@[k] == before[k],
            forall|k: int| 0 <= k < i ==> (#[trigger] boxes@[k]).color == mean_crgb(samples@[k]@),
            forall|k: int|
                0 <= k < i ==> {
                    &&& (#[trigger] boxes@[k]).screen_start == before[k].screen_start
                    &&& boxes@[k].screen_end == before[k].screen_end
                    &&& boxes@[k].sample_points == before[k].sample_points
                    &&& boxes@[k].side == before[k].side
                },
        decreases before.len() - i,
    {
        let mean = mean_color(&samples[i]);
        boxes[i].set_color_from_rgb_vec(mean);
        i = i + 1;
    }
}

} // verus!

//! LEDs on the ring: their evenly spaced positions, the region that owns each
//! one, and the colour blended from two neighbouring regions.

use vstd::prelude::*;
use crate::color::{CRGB, channel};
use crate::blend::{
    blend_pair, blend_weight, blend_channel, corrected, capped, prev_index, next_index, span_center,
    blend_weight_of, blend_channel_value, correct_channel, lemma_blend_between,
    lemma_own_weight_profile,
};
use crate::geometry::{ScreenGeometry, ScreenSide, side_len, border_to_linear};
use crate::regions::{Box, black, box_spans, regions_wf, span_holds, in_some_span, lemma_tile_partition};

verus! {

/// An LED: its fixed ring position, the index of the region that holds it,
/// and its current colour.
#[derive(Debug)]
pub struct Led {
    pub box_idx: usize,
    pub linear_position: u32,
    pub color: CRGB,
}

/// The LED's cached region index points at a region whose span holds it.
pub open spec fn led_resolved(led: Led, boxes: Seq<Box>, g: ScreenGeometry) -> bool {
    &&& led.box_idx < boxes.len()
    &&& span_holds(boxes[led.box_idx as int].span(g), led.linear_position as int)
}

/// Position along a side of LED `k` of `count` evenly spaced LEDs, taken in
/// descending order when `reverse`.
pub open spec fn side_led_border_coord(side: ScreenSide, g: ScreenGeometry, count: int, k: int, reverse: bool) -> int {
    let idx = if reverse { count - 1 - k } else { k };
    (side_len(side, g) / count) * idx
}

/// Ring position of LED `k` in strip order: the top side left to right, the
/// right side top to bottom, the bottom side right to left and the left side
/// bottom to top, `x_leds` on each horizontal side and `y_leds` on each
/// vertical one.
pub open spec fn led_position(g: ScreenGeometry, x_leds: int, y_leds: int, k: int) -> int {
    if k < x_leds {
        border_to_linear(ScreenSide::Top, g, side_led_border_coord(ScreenSide::Top, g, x_leds, k, false))
    } else if k < x_leds + y_leds {
        border_to_linear(
            ScreenSide::Right,
            g,
            side_led_border_coord(ScreenSide::Right, g, y_leds, k - x_leds, false),
        )
    } else if k < 2 * x_leds + y_leds {
        border_to_linear(
            ScreenSide::Bottom,
            g,
            side_led_border_coord(ScreenSide::Bottom, g, x_leds, k - x_leds - y_leds, true),
        )
    } else {
        border_to_linear(
            ScreenSide::Left,
            g,
            side_led_border_coord(ScreenSide::Left, g, y_leds, k - 2 * x_leds - y_leds, true),
        )
    }
}

proof fn lemma_led_spacing(len: int, count: int, idx: int)
    requires
        0 < count,
        0 < len,
        0 <= idx < count,
    ensures
        0 <= (len / count) * idx < len,
{
    let w = len / count;
    assert(0 <= w * idx) by (nonlinear_arith)
        requires
            0 <= idx,
            0 < count,
            0 <= len,
            w == len / count,
    ;
    if w > 0 {
        assert(w * idx <= w * (count - 1)) by (nonlinear_arith)
            requires
                idx <= count - 1,
                w > 0,
        ;
        assert(w * (count - 1) == w * count - w) by (nonlinear_arith);
        assert(w * count <= len) by (nonlinear_arith)
            requires
                w == len / count,
                0 < count,
        ;
    } else {
        assert(w >= 0) by (nonlinear_arith)
            requires
                w == len / count,
                0 < count,
                0 <= len,
        ;
        assert(w == 0);
        assert(w * idx == 0) by (nonlinear_arith)
            requires
                w == 0,
        ;
    }
}

/// Finds the region that holds a ring position: the first whose span does.
pub fn new_led(boxes: &Vec<Box>, linear_position: u32, screen: &ScreenGeometry) -> (r: Led)
    requires
        screen.wf(),
        forall|i: int| 0 <= i < boxes@.len() ==> (#[trigger] boxes@[i]).on_side(*screen),
        exists|i: int|
            0 <= i < boxes@.len() && span_holds(
                (#[trigger] boxes@[i]).span(*screen),
                linear_position as int,
            ),
    ensures
        led_resolved(r, boxes@, *screen),
        forall|k: int|
            0 <= k < r.box_idx ==> !span_holds(
                (#[trigger] boxes@[k]).span(*screen),
                linear_position as int,
            ),
        r.linear_position == linear_position,
        r.color == black(),
{
    let n = boxes.len();
    let mut i: usize = 0;
    loop
        invariant
            n == boxes@.len(),
            screen.wf(),
            forall|k: int| 0 <= k < boxes@.len() ==> (#[trigger] boxes@[k]).on_side(*screen),
            exists|k: int|
                0 <= k < boxes@.len() && span_holds(
                    (#[trigger] boxes@[k]).span(*screen),
                    linear_position as int,
                ),
            i < boxes@.len(),
            forall|k: int|
                0 <= k < i ==> !span_holds(
                    (#[trigger] boxes@[k]).span(*screen),
                    linear_position as int,
                ),
        decreases boxes@.len() - i,
    {
        let (start, end) = boxes[i].get_linear_coord(screen);
        if start <= linear_position && linear_position <= end {
            return Led { box_idx: i, linear_position, color: CRGB { r: 0, g: 0, b: 0 } };
        }
        proof {
            let k = choose|k: int|
                0 <= k < boxes@.len() && span_holds(
                    (#[trigger] boxes@[k]).span(*screen),
                    linear_position as int,
                );
            assert(k > i);
        }
        i = i + 1;
    }
}

/// Appends the `count` LEDs of one side in strip order.
fn push_side_leds(
    leds: &mut Vec<Led>,
    boxes: &Vec<Box>,
    side: ScreenSide,
    count: u32,
    reverse: bool,
    screen: &ScreenGeometry,
)
    requires
        regions_wf(boxes@, *screen),
    ensures
        final(leds)@.len() == old(leds)@.len() + count,
        forall|j: int| 0 <= j < old(leds)@.len() ==> #[trigger] final(leds)@[j] == old(leds)@[j],
        forall|j: int|
            old(leds)@.len() <= j < final(leds)@.len() ==> {
                &&& led_resolved(#[trigger] final(leds)@[j], boxes@, *screen)
                &&& final(leds)@[j].linear_position == border_to_linear(
                    side,
                    *screen,
                    side_led_border_coord(side, *screen, count as int, j - old(leds)@.len(), reverse),
                )
                &&& final(leds)@[j].color == black()
            },
{
    let ghost g = *screen;
    let ghost start = old(leds)@.len();
    proof {
        lemma_tile_partition(box_spans(boxes@, g), g.ring_len());
    }
    let mut k: u32 = 0;
    while k < count
        invariant
            g == *screen,
            regions_wf(boxes@, g),
            forall|p: int| 0 <= p < g.ring_len() ==> #[trigger] in_some_span(box_spans(boxes@, g), p),
            k <= count,
            start == old(leds)@.len(),
            leds@.len() == start + k,
            forall|j: int| 0 <= j < start ==> #[trigger] leds@[j] == old(leds)@[j],
            forall|j: int|
                start <= j < leds@.len() ==> {
                    &&& led_resolved(#[trigger] leds@[j], boxes@, g)
                    &&& leds@[j].linear_position == border_to_linear(
                        side,
                        g,
                        side_led_border_coord(side, g, count as int, j - start, reverse),
                    )
                    &&& leds@[j].color == black()
                },
        decreases count - k,
    {
        let idx = if reverse { count - 1 - k } else { k };
        let side_res = side.get_side_res(screen);
        proof {
            lemma_led_spacing(side_res as int, count as int, idx as int);
        }
        let led_pos_on_border: u32 = (side_res / count) * idx;
        let led_linear_pos = side.get_linear_from_border_coord(screen, led_pos_on_border);
        proof {
            assert(in_some_span(box_spans(boxes@, g), led_linear_pos as int));
            let i = choose|i: int|
                0 <= i < box_spans(boxes@, g).len() && span_holds(
                    #[trigger] box_spans(boxes@, g)[i],
                    led_linear_pos as int,
                );
            assert(span_holds(boxes@[i].span(g), led_linear_pos as int));
        }
        let led = new_led(boxes, led_linear_pos, screen);
        leds.push(led);
        k = k + 1;
    }
}

/// Places the LEDs on the ring in strip order and resolves each one's region.
pub fn get_leds(boxes: &Vec<Box>, x_led_count: u32, y_led_count: u32, screen: &ScreenGeometry) -> (r:
    Vec<Led>)
    requires
        regions_wf(boxes@, *screen),
    ensures
        r@.len() == 2 * (x_led_count + y_led_count),
        forall|k: int|
            0 <= k < r@.len() ==> {
                &&& led_resolved(#[trigger] r@[k], boxes@, *screen)
                &&& r@[k].linear_position == led_position(
                    *screen,
                    x_led_count as int,
                    y_led_count as int,
                    k,
                )
                &&& r@[k].color == black()
            },
{
    let ghost g = *screen;
    let ghost xl = x_led_count as int;
    let ghost yl = y_led_count as int;
    let mut leds: Vec<Led> = Vec::new();
    push_side_leds(&mut leds, boxes, ScreenSide::Top, x_led_count, false, screen);
    let ghost l1 = leds@;
    push_side_leds(&mut leds, boxes, ScreenSide::Right, y_led_count, false, screen);
    let ghost l2 = leds@;
    push_side_leds(&mut leds, boxes, ScreenSide::Bottom, x_led_count, true, screen);
    let ghost l3 = leds@;
    push_side_leds(&mut leds, boxes, ScreenSide::Left, y_led_count, true, screen);
    assert forall|k: int| 0 <= k < leds@.len() implies {
        &&& led_resolved(#[trigger] leds@[k], boxes@, g)
        &&& leds@[k].linear_position == led_position(g, xl, yl, k)
        &&& leds@[k].color == black()
    } by {
        if k < xl {
            assert(leds@[k] == l3[k] && l3[k] == l2[k] && l2[k] == l1[k]);
        } else if k < xl + yl {
            assert(leds@[k] == l3[k] && l3[k] == l2[k]);
        } else if k < 2 * xl + yl {
            assert(leds@[k] == l3[k]);
        }
    }
    leds
}

/// Channel `ch` of the LED's colour blended from two neighbouring regions,
/// before correction.
pub open spec fn interpolated(led: Led, boxes: Seq<Box>, g: ScreenGeometry, ch: int) -> int {
    let i = led.box_idx as int;
    let s = boxes[i].span(g);
    let p = led.linear_position as int;
    let pair = blend_pair(i, boxes.len() as int, s, p);
    blend_channel(
        blend_weight(s, p),
        channel(boxes[pair.0].color, ch),
        channel(boxes[pair.1].color, ch),
    )
}

/// The LED's corrected colour, each channel capped at 255.
pub open spec fn led_color(
    led: Led,
    boxes: Seq<Box>,
    g: ScreenGeometry,
    luminosity: int,
    correction_red: int,
    correction_green: int,
    correction_blue: int,
) -> CRGB {
    CRGB {
        r: capped(corrected(luminosity, correction_red, interpolated(led, boxes, g, 0))),
        g: capped(corrected(luminosity, correction_green, interpolated(led, boxes, g, 1))),
        b: capped(corrected(luminosity, correction_blue, interpolated(led, boxes, g, 2))),
    }
}

/// Neighbours on a ring of `n` wrap at both ends.
pub proof fn lemma_ring_neighbours(i: int, n: int)
    requires
        0 <= i < n,
    ensures
        prev_index(i, n) == if i == 0 {
            n - 1
        } else {
            i - 1
        },
        next_index(i, n) == if i == n - 1 {
            0
        } else {
            i + 1
        },
        next_index(prev_index(i, n), n) == i,
{
    if i == 0 {
        vstd::arithmetic::div_mod::lemma_small_mod((n - 1) as nat, n as nat);
    } else {
        vstd::arithmetic::div_mod::lemma_mod_add_multiples_vanish(i - 1, n);
        vstd::arithmetic::div_mod::lemma_small_mod((i - 1) as nat, n as nat);
    }
    if i == n - 1 {
        vstd::arithmetic::div_mod::lemma_mod_self_0(n);
    } else {
        vstd::arithmetic::div_mod::lemma_small_mod((i + 1) as nat, n as nat);
    }
    let j = prev_index(i, n);
    if j == n - 1 {
        vstd::arithmetic::div_mod::lemma_mod_self_0(n);
    } else {
        vstd::arithmetic::div_mod::lemma_small_mod((j + 1) as nat, n as nat);
    }
}

impl Led {
    /// Blends the colours of the LED's region and a neighbour by the LED's
    /// place in the region's span, then applies luminosity and per-channel
    /// correction.
    pub fn update_color(
        &mut self,
        boxes: &Vec<Box>,
        screen: &ScreenGeometry,
        luminosity: u32,
        color_correction_red: u32,
        color_correction_green: u32,
        color_correction_blue: u32,
    )
        requires
            screen.wf(),
            led_resolved(*old(self), boxes@, *screen),
            boxes@[old(self).box_idx as int].on_side(*screen),
        ensures
            final(self).color == led_color(
                *old(self),
                boxes@,
                *screen,
                luminosity as int,
                color_correction_red as int,
                color_correction_green as int,
                color_correction_blue as int,
            ),
            final(self).box_idx == old(self).box_idx,
            final(self).linear_position == old(self).linear_position,
    {
        let n = boxes.len();
        let i = self.box_idx;
        let (start, end) = boxes[i].get_linear_coord(screen);
        let (forward, t) = blend_weight_of(start, end, self.linear_position);
        proof {
            lemma_ring_neighbours(i as int, n as int);
        }
        let (i1, i2) = if forward {
            (i, (i + 1) % n)
        } else {
            (if i == 0 { n - 1 } else { i - 1 }, i)
        };
        let c1 = boxes[i1].color;
        let c2 = boxes[i2].color;
        self.color = CRGB {
            r: correct_channel(luminosity, color_correction_red, blend_channel_value(t, c1.r, c2.r)),
            g: correct_channel(luminosity, color_correction_green, blend_channel_value(t, c1.g, c2.g)),
            b: correct_channel(luminosity, color_correction_blue, blend_channel_value(t, c1.b, c2.b)),
        };
    }
}

/// Recolours every LED from the current region colours.
pub fn color_leds(
    leds: &mut Vec<Led>,
    boxes: &Vec<Box>,
    screen: &ScreenGeometry,
    luminosity: u32,
    color_correction_red: u32,
    color_correction_green: u32,
    color_correction_blue: u32,
)
    requires
        regions_wf(boxes@, *screen),
        forall|k: int| 0 <= k < old(leds)@.len() ==> led_resolved(#[trigger] old(leds)@[k], boxes@, *screen),
    ensures
        final(leds)@.len() == old(leds)@.len(),
        forall|k: int|
            0 <= k < final(leds)@.len() ==> {
                &&& (#[trigger] final(leds)@[k]).color == led_color(
                    old(leds)@[k],
                    boxes@,
                    *screen,
                    luminosity as int,
                    color_correction_red as int,
                    color_correction_green as int,
                    color_correction_blue as int,
                )
                &&& final(leds)@[k].box_idx == old(leds)@[k].box_idx
                &&& final(leds)@[k].linear_position == old(leds)@[k].linear_position
            },
{
    let ghost before = leds@;
    let mut k: usize = 0;
    while k < leds.len()
        invariant
            k <= leds@.len() == before.len(),
            before == old(leds)@,
            regions_wf(boxes@, *screen),
            forall|j: int| 0 <= j < before.len() ==> led_resolved(#[trigger] before[j], boxes@, *screen),
            forall|j: int| k <= j < leds@.len() ==> #[trigger] leds@[j] == before[j],
            forall|j: int|
                0 <= j < k ==> {
                    &&& (#[trigger] leds@[j]).color == led_color(
                        before[j],
                        boxes@,
                        *screen,
                        luminosity as int,
                        color_correction_red as int,
                        color_correction_green as int,
                        color_correction_blue as int,
                    )
                    &&& leds@[j].box_idx == before[j].box_idx
                    &&& leds@[j].linear_position == before[j].linear_position
                },
        decreases before.len() - k,
    {
        assert(led_resolved(before[k as int], boxes@, *screen));
        leds[k].update_color(
            boxes,
            screen,
            luminosity,
            color_correction_red,
            color_correction_green,
            color_correction_blue,
        );
        k = k + 1;
    }
}

/// An LED's colour is a blend of exactly two neighbouring regions, the second
/// following the first on the ring, and each blended channel lies between
/// those two regions' channels.
pub proof fn lemma_interpolation_convex(led: Led, boxes: Seq<Box>, g: ScreenGeometry, ch: int)
    requires
        led_resolved(led, boxes, g),
        0 <= ch < 3,
    ensures
        ({
            let i = led.box_idx as int;
            let n = boxes.len() as int;
            let pair = blend_pair(i, n, boxes[i].span(g), led.linear_position as int);
            let c1 = channel(boxes[pair.0].color, ch);
            let c2 = channel(boxes[pair.1].color, ch);
            &&& 0 <= pair.0 < n
            &&& 0 <= pair.1 < n
            &&& pair.1 == next_index(pair.0, n)
            &&& (pair.0 == i || pair.1 == i)
            &&& c1 <= c2 ==> c1 <= interpolated(led, boxes, g, ch) <= c2
            &&& c2 <= c1 ==> c2 <= interpolated(led, boxes, g, ch) <= c1
        }),
{
    let i = led.box_idx as int;
    let n = boxes.len() as int;
    let s = boxes[i].span(g);
    let p = led.linear_position as int;
    let pair = blend_pair(i, n, s, p);
    lemma_ring_neighbours(i, n);
    lemma_own_weight_profile(s, p, p);
    lemma_blend_between(
        blend_weight(s, p),
        channel(boxes[pair.0].color, ch),
        channel(boxes[pair.1].color, ch),
    );
}

/// The ring wraps around: the region before the first is the last and the
/// one after the last is the first. An LED at ring position 0 takes, when its
/// region's centre lies beyond 0, exactly the last region's colour; an LED at
/// the ring's last position takes, when its region's centre lies before it,
/// exactly the first region's colour.
pub proof fn lemma_ring_wraparound(led: Led, boxes: Seq<Box>, g: ScreenGeometry, ch: int)
    requires
        regions_wf(boxes, g),
        led_resolved(led, boxes, g),
        0 <= ch < 3,
    ensures
        prev_index(0, boxes.len() as int) == boxes.len() - 1,
        next_index(boxes.len() - 1, boxes.len() as int) == 0,
        led.linear_position == 0 && 0 < span_center(boxes[0].span(g)) ==> {
            &&& led.box_idx == 0
            &&& interpolated(led, boxes, g, ch) == channel(boxes.last().color, ch)
        },
        led.linear_position == g.ring_len() - 1 && span_center(boxes.last().span(g)) < boxes.last().span(
            g,
        ).1 ==> {
            &&& led.box_idx == boxes.len() - 1
            &&& interpolated(led, boxes, g, ch) == channel(boxes[0].color, ch)
        },
{
    let n = boxes.len() as int;
    let sp = box_spans(boxes, g);
    lemma_tile_partition(sp, g.ring_len());
    lemma_ring_neighbours(0, n);
    lemma_ring_neighbours(n - 1, n);
    let i = led.box_idx as int;
    let p = led.linear_position as int;
    assert(sp[i] == boxes[i].span(g));
    assert(span_holds(sp[i], p));
    if p == 0 && 0 < span_center(boxes[0].span(g)) {
        assert(span_holds(sp[0], p));
        assert(i == 0);
        lemma_blend_between(
            0,
            channel(boxes[n - 1].color, ch),
            channel(boxes[0].color, ch),
        );
    }
    if p == g.ring_len() - 1 && span_center(boxes.last().span(g)) < boxes.last().span(g).1 {
        assert(span_holds(sp[n - 1], p));
        assert(i == n - 1);
        let s = boxes[i].span(g);
        let c = span_center(s);
        assert(100 * (s.1 - c) / (s.1 - c) == 100) by (nonlinear_arith)
            requires
                c < s.1,
        ;
        lemma_blend_between(
            100,
            channel(boxes[n - 1].color, ch),
            channel(boxes[0].color, ch),
        );
    }
}

} // verus!

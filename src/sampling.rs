//! Where each region is sampled: points drawn uniformly inside its
//! rectangle, either once (fixed sampling) or afresh every frame.

use vstd::prelude::*;
use rand::Rng;
use crate::geometry::ScreenCoord;
use crate::regions::Box;

verus! {

/// Relies on rand's `Rng::gen_range` on `thread_rng()`: a value of the
/// half-open range `lo..hi`. It panics on an empty range, which `requires`
/// leaves out.
#[verifier::external_body]
fn random_in_range(lo: u32, hi: u32) -> (r: u32)
    requires
        lo < hi,
    ensures
        lo <= r < hi,
{
    rand::thread_rng().gen_range(lo..hi)
}

/// A random pixel of the box's sampling rectangle.
pub fn get_random_sampling(b: &Box) -> (r: ScreenCoord)
    requires
        b.samplable(),
    ensures
        b.contains_point(r),
{
    ScreenCoord {
        x: random_in_range(b.screen_start.x, b.screen_end.x),
        y: random_in_range(b.screen_start.y, b.screen_end.y),
    }
}

/// `b` is `a` with `n` more fixed sample points, each inside `a`'s
/// rectangle, and nothing else changed.
pub open spec fn with_added_points(a: Box, b: Box, n: int) -> bool {
    &&& b.sample_points@.len() == a.sample_points@.len() + n
    &&& b.sample_points@.subrange(0, a.sample_points@.len() as int) == a.sample_points@
    &&& forall|j: int|
        a.sample_points@.len() <= j < b.sample_points@.len() ==> a.contains_point(
            #[trigger] b.sample_points@[j],
        )
    &&& b.screen_start == a.screen_start
    &&& b.screen_end == a.screen_end
    &&& b.color == a.color
    &&& b.side == a.side
}

/// Appends `n` random points of the box's rectangle to its fixed sample points.
pub fn add_sample_points(b: &mut Box, n: u32)
    requires
        n == 0 || old(b).samplable(),
    ensures
        with_added_points(*old(b), *final(b), n as int),
{
    let ghost before = b.sample_points@;
    let mut k: u32 = 0;
    while k < n
        invariant
            k <= n,
            n == 0 || b.samplable(),
            b.sample_points@.len() == before.len() + k,
            b.sample_points@.subrange(0, before.len() as int) == before,
            forall|j: int|
                before.len() <= j < b.sample_points@.len() ==> b.contains_point(
                    #[trigger] b.sample_points@[j],
                ),
            b.screen_start == old(b).screen_start,
            b.screen_end == old(b).screen_end,
            b.color == old(b).color,
            b.side == old(b).side,
            before == old(b).sample_points@,
        decreases n - k,
    {
        let p = get_random_sampling(b);
        b.sample_points.push(p);
        assert(b.sample_points@.subrange(0, before.len() as int) =~= before);
        k = k + 1;
    }
}

/// Gives every box `sampling_size` more fixed sample points, drawn once.
pub fn set_regular_sampling_points(boxes: &mut Vec<Box>, sampling_size: u32)
    requires
        sampling_size == 0 || forall|i: int|
            0 <= i < old(boxes)@.len() ==> (#[trigger] old(boxes)@[i]).samplable(),
    ensures
        final(boxes)@.len() == old(boxes)@.len(),
        forall|i: int|
            0 <= i < final(boxes)@.len() ==> #[trigger] with_added_points(
                old(boxes)@[i],
                final(boxes)@[i],
                sampling_size as int,
            ),
{
    let ghost before = boxes@;
    let mut i: usize = 0;
    while i < boxes.len()
        invariant
            i <= boxes@.len() == before.len(),
            before == old(boxes)@,
            sampling_size == 0 || forall|k: int|
                0 <= k < before.len() ==> (#[trigger] before[k]).samplable(),
            forall|k: int| i <= k < boxes@.len() ==> #[trigger] boxes@[k] == before[k],
            forall|k: int|
                0 <= k < i ==> #[trigger] with_added_points(before[k], boxes@[k], sampling_size as int),
        decreases before.len() - i,
    {
        add_sample_points(&mut boxes[i], sampling_size);
        i = i + 1;
    }
}

/// The points to query for a box this frame: `sample_count` fresh random
/// points under random sampling, else its first `sample_count` fixed points.
pub fn frame_sampling_points(b: &Box, sample_count: u32, random_sampling: bool) -> (r: Vec<
    ScreenCoord,
>)
    requires
        random_sampling ==> sample_count == 0 || b.samplable(),
        !random_sampling ==> sample_count <= b.sample_points@.len(),
    ensures
        r@.len() == sample_count,
        random_sampling ==> forall|j: int| 0 <= j < r@.len() ==> b.contains_point(#[trigger] r@[j]),
        !random_sampling ==> r@ == b.sample_points@.subrange(0, sample_count as int),
{
    let mut r: Vec<ScreenCoord> = Vec::new();
    let mut k: u32 = 0;
    while k < sample_count
        invariant
            k <= sample_count,
            r@.len() == k,
            random_sampling ==> sample_count == 0 || b.samplable(),
            !random_sampling ==> sample_count <= b.sample_points@.len(),
            random_sampling ==> forall|j: int| 0 <= j < r@.len() ==> b.contains_point(#[trigger] r@[j]),
            !random_sampling ==> r@ == b.sample_points@.subrange(0, k as int),
        decreases sample_count - k,
    {
        if random_sampling {
            r.push(get_random_sampling(b));
        } else {
            r.push(b.sample_points[k as usize]);
            assert(r@ =~= b.sample_points@.subrange(0, k + 1));
        }
        k = k + 1;
    }
    r
}

} // verus!

//! Colours and the reduction of a region's samples to one averaged colour.

use vstd::prelude::*;

verus! {

/// An 8-bit-per-channel colour.
#[derive(Clone, Copy, Debug, PartialEq, Eq)]
pub struct CRGB {
    pub r: u8,
    pub g: u8,
    pub b: u8,
}

/// Channel `ch` of a colour: 0 is red, 1 green, 2 blue.
pub open spec fn channel(c: CRGB, ch: int) -> int {
    if ch == 0 {
        c.r as int
    } else if ch == 1 {
        c.g as int
    } else {
        c.b as int
    }
}

/// Sum of channel `ch` over a sequence of colours.
pub open spec fn channel_sum(s: Seq<CRGB>, ch: int) -> int
    decreases s.len(),
{
    if s.len() == 0 {
        0
    } else {
        channel_sum(s.drop_last(), ch) + channel(s.last(), ch)
    }
}

/// Mean of channel `ch`, truncated.
pub open spec fn channel_mean(s: Seq<CRGB>, ch: int) -> int
    recommends
        s.len() > 0,
{
    channel_sum(s, ch) / s.len() as int
}

/// The colour whose channels are the truncated means of the samples'.
pub open spec fn mean_crgb(s: Seq<CRGB>) -> CRGB {
    CRGB {
        r: channel_mean(s, 0) as u8,
        g: channel_mean(s, 1) as u8,
        b: channel_mean(s, 2) as u8,
    }
}

proof fn lemma_channel_sum_bounds(s: Seq<CRGB>, ch: int)
    ensures
        0 <= channel_sum(s, ch) <= 255 * s.len(),
    decreases s.len(),
{
    if s.len() > 0 {
        lemma_channel_sum_bounds(s.drop_last(), ch);
    }
}

/// Per-channel mean of the samples, truncated: `[red, green, blue]`.
pub fn mean_color(samples: &Vec<CRGB>) -> (r: Vec<u32>)
    requires
        0 < samples@.len() <= u32::MAX,
    ensures
        r@.len() == 3,
        forall|ch: int| 0 <= ch < 3 ==> #[trigger] r@[ch] == channel_mean(samples@, ch),
        forall|ch: int| 0 <= ch < 3 ==> #[trigger] r@[ch] <= 255,
{
    let mut sum_r: u64 = 0;
    let mut sum_g: u64 = 0;
    let mut sum_b: u64 = 0;
    let mut i: usize = 0;
    while i < samples.len()
        invariant
            i <= samples@.len() <= u32::MAX,
            sum_r == channel_sum(samples@.subrange(0, i as int), 0),
            sum_g == channel_sum(samples@.subrange(0, i as int), 1),
            sum_b == channel_sum(samples@.subrange(0, i as int), 2),
        decreases samples@.len() - i,
    {
        let ghost prefix = samples@.subrange(0, i as int);
        let ghost next = samples@.subrange(0, i + 1);
        proof {
            assert(next.drop_last() =~= prefix);
            lemma_channel_sum_bounds(prefix, 0);
            lemma_channel_sum_bounds(prefix, 1);
            lemma_channel_sum_bounds(prefix, 2);
        }
        let c = samples[i];
        sum_r = sum_r + c.r as u64;
        sum_g = sum_g + c.g as u64;
        sum_b = sum_b + c.b as u64;
        i = i + 1;
    }
    proof {
        assert(samples@.subrange(0, samples@.len() as int) =~= samples@);
        lemma_channel_sum_bounds(samples@, 0);
        lemma_channel_sum_bounds(samples@, 1);
        lemma_channel_sum_bounds(samples@, 2);
    }
    let n = samples.len() as u64;
    let mut r: Vec<u32> = Vec::new();
    proof {
        lemma_mean_at_most(sum_r as int, n as int);
        lemma_mean_at_most(sum_g as int, n as int);
        lemma_mean_at_most(sum_b as int, n as int);
    }
    r.push((sum_r / n) as u32);
    r.push((sum_g / n) as u32);
    r.push((sum_b / n) as u32);
    r
}

proof fn lemma_mean_at_most(sum: int, n: int)
    requires
        n > 0,
        0 <= sum <= 255 * n,
    ensures
        0 <= sum / n <= 255,
{
    assert(sum / n <= 255) by (nonlinear_arith)
        requires
            n > 0,
            0 <= sum <= 255 * n,
    ;
    assert(0 <= sum / n) by (nonlinear_arith)
        requires
            n > 0,
            0 <= sum,
    ;
}

proof fn lemma_uniform_sum(s: Seq<CRGB>, c: CRGB, ch: int)
    requires
        forall|i: int| 0 <= i < s.len() ==> s[i] == c,
    ensures
        channel_sum(s, ch) == s.len() * channel(c, ch),
    decreases s.len(),
{
    if s.len() > 0 {
        lemma_uniform_sum(s.drop_last(), c, ch);
        assert((s.len() - 1) * channel(c, ch) + channel(c, ch) == s.len() * channel(c, ch))
            by (nonlinear_arith);
    }
}

/// Averaging is idempotent: when every sample has the same colour, the mean of
/// each channel is that colour's channel exactly.
pub proof fn lemma_mean_of_uniform_samples(s: Seq<CRGB>, c: CRGB)
    requires
        s.len() > 0,
        forall|i: int| 0 <= i < s.len() ==> s[i] == c,
    ensures
        forall|ch: int| 0 <= ch < 3 ==> #[trigger] channel_mean(s, ch) == channel(c, ch),
{
    assert forall|ch: int| 0 <= ch < 3 implies #[trigger] channel_mean(s, ch) == channel(c, ch) by {
        lemma_uniform_sum(s, c, ch);
        let n = s.len() as int;
        let v = channel(c, ch);
        assert((n * v) / n == v) by (nonlinear_arith)
            requires
                n > 0,
        ;
    }
}

} // verus!

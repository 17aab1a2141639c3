use vstd::prelude::*;

verus! {

/// The smoothing factor `alpha = weight / scale`, a fraction in `[0, 1]`.
/// Near one the smoothed color holds steady; near zero it follows each new
/// observation.
#[derive(Clone, Copy, Debug, PartialEq, Eq, Structural)]
pub struct SmoothingFactor {
    pub weight: u32,
    pub scale: u32,
}

impl SmoothingFactor {
    /// The fraction lies in `[0, 1]` and has a nonzero denominator.
    pub open spec fn wf(self) -> bool {
        0 < self.scale && self.weight <= self.scale
    }

    /// `weight / scale`, where that is a fraction in `[0, 1]`.
    pub fn new(weight: u32, scale: u32) -> (r: Option<SmoothingFactor>)
        ensures
            r is Some <==> 0 < scale && weight <= scale,
            r is Some ==> r->Some_0 == (SmoothingFactor { weight, scale }),
    {
        if 0 < scale && weight <= scale {
            Some(SmoothingFactor { weight, scale })
        } else {
            None
        }
    }

    /// `thousandths / 1000`, where that is at most one.
    pub fn from_thousandths(thousandths: u32) -> (r: Option<SmoothingFactor>)
        ensures
            r is Some <==> thousandths <= 1000,
            r is Some ==> r->Some_0 == (SmoothingFactor { weight: thousandths, scale: 1000 }),
    {
        SmoothingFactor::new(thousandths, 1000)
    }
}

/// `alpha * prev + (1 - alpha) * observed`, truncated.
pub open spec fn smooth_channel(prev: int, observed: int, alpha: SmoothingFactor) -> int {
    (alpha.weight * prev + (alpha.scale - alpha.weight) * observed) / alpha.scale as int
}

/// [`smooth_channel`] on each of the three channels.
pub open spec fn smooth_rgb(prev: (int, int, int), observed: (int, int, int), alpha: SmoothingFactor) -> (
    int,
    int,
    int,
) {
    (
        smooth_channel(prev.0, observed.0, alpha),
        smooth_channel(prev.1, observed.1, alpha),
        smooth_channel(prev.2, observed.2, alpha),
    )
}

/// One exponential-smoothing step on one channel.
fn smooth_one(prev: u32, observed: u32, alpha: SmoothingFactor) -> (r: u32)
    requires
        alpha.wf(),
    ensures
        r as int == smooth_channel(prev as int, observed as int, alpha),
{
    let keep = alpha.weight as u64;
    let take = (alpha.scale - alpha.weight) as u64;
    let top: u64 = if prev >= observed {
        prev as u64
    } else {
        observed as u64
    };
    proof {
        let s = alpha.scale as int;
        assert(keep * prev + take * observed <= s * top) by (nonlinear_arith)
            requires
                keep + take == s,
                keep >= 0,
                take >= 0,
                prev <= top,
                observed <= top,
        ;
        assert(s * top <= 0xffff_ffff * 0xffff_ffffu64) by (nonlinear_arith)
            requires
                0 < s <= 0xffff_ffff,
                0 <= top <= 0xffff_ffff,
        ;
        assert(keep * prev <= s * top) by (nonlinear_arith)
            requires
                keep * prev + take * observed <= s * top,
                take * observed >= 0,
        ;
        assert(take * observed >= 0) by (nonlinear_arith)
            requires
                take >= 0,
                observed >= 0,
        ;
        assert(keep * prev >= 0) by (nonlinear_arith)
            requires
                keep >= 0,
                prev >= 0,
        ;
        vstd::arithmetic::div_mod::lemma_div_is_ordered(
            keep * prev + take * observed,
            s * top,
            s,
        );
        vstd::arithmetic::div_mod::lemma_div_multiples_vanish(top as int, s);
        assert(top * s == s * top) by (nonlinear_arith);
    }
    let total = keep * (prev as u64) + take * (observed as u64);
    (total / (alpha.scale as u64)) as u32
}

/// Smooths a region's color across frames: each channel becomes
/// `alpha * current + (1 - alpha) * new`, truncated.
pub fn smooth_colors(current_avg: (u32, u32, u32), new_avg: [u32; 3], smoothing_factor: SmoothingFactor) -> (r: (
    u32,
    u32,
    u32,
))
    requires
        smoothing_factor.wf(),
    ensures
        (r.0 as int, r.1 as int, r.2 as int) == smooth_rgb(
            (current_avg.0 as int, current_avg.1 as int, current_avg.2 as int),
            (new_avg@[0] as int, new_avg@[1] as int, new_avg@[2] as int),
            smoothing_factor,
        ),
{
    (
        smooth_one(current_avg.0, new_avg[0], smoothing_factor),
        smooth_one(current_avg.1, new_avg[1], smoothing_factor),
        smooth_one(current_avg.2, new_avg[2], smoothing_factor),
    )
}

/// With `alpha = 0` a smoothing step yields the observed value exactly, and
/// with `alpha = 1` the previous value exactly.
pub proof fn lemma_smooth_extremes(prev: int, observed: int, scale: u32)
    requires
        scale > 0,
    ensures
        smooth_channel(prev, observed, SmoothingFactor { weight: 0, scale }) == observed,
        smooth_channel(prev, observed, SmoothingFactor { weight: scale, scale }) == prev,
{
    let s = scale as int;
    assert(0 * prev + (s - 0) * observed == observed * s) by (nonlinear_arith);
    assert(s * prev + (s - s) * observed == prev * s) by (nonlinear_arith);
    vstd::arithmetic::div_mod::lemma_div_multiples_vanish(observed, s);
    vstd::arithmetic::div_mod::lemma_div_multiples_vanish(prev, s);
    assert(observed * s == s * observed) by (nonlinear_arith);
    assert(prev * s == s * prev) by (nonlinear_arith);
}

} // verus!

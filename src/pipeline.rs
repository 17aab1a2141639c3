use vstd::prelude::*;
use crate::capture::{aggregate, ExclusionPolicy, Frame};
use crate::models::{max3, HASSApiBody};
use crate::region::Region;
use crate::smoothing::{lemma_smooth_extremes, smooth_colors, smooth_rgb, SmoothingFactor};

verus! {

/// A light entity and the region of the screen it follows.
pub struct LightTarget {
    pub entity: String,
    pub region: Region,
}

/// What one cycle needs besides the frame: the sampling stride, which pixels
/// count, and the smoothing factor.
#[derive(Clone, Copy, Debug, PartialEq, Eq, Structural)]
pub struct PipelineConfig {
    pub stride: usize,
    pub policy: ExclusionPolicy,
    pub smoothing: SmoothingFactor,
}

impl PipelineConfig {
    pub open spec fn wf(self) -> bool {
        self.stride >= 1 && self.smoothing.wf()
    }
}

/// The smoothed color of each region seen so far, carried from cycle to cycle.
pub struct SmoothState {
    top: Option<(u32, u32, u32)>,
    bottom: Option<(u32, u32, u32)>,
    left: Option<(u32, u32, u32)>,
    right: Option<(u32, u32, u32)>,
    full: Option<(u32, u32, u32)>,
}

impl SmoothState {
    spec fn slot(&self, region: Region) -> Option<(u32, u32, u32)> {
        match region {
            Region::Top => self.top,
            Region::Bottom => self.bottom,
            Region::Left => self.left,
            Region::Right => self.right,
            Region::Full => self.full,
        }
    }
}

impl View for SmoothState {
    type V = Map<Region, (u32, u32, u32)>;

    closed spec fn view(&self) -> Map<Region, (u32, u32, u32)> {
        Map::new(|r: Region| self.slot(r) is Some, |r: Region| self.slot(r)->Some_0)
    }
}

impl SmoothState {
    /// No region observed yet.
    pub fn new() -> (r: SmoothState)
        ensures
            r@ == Map::<Region, (u32, u32, u32)>::empty(),
    {
        let r = SmoothState { top: None, bottom: None, left: None, right: None, full: None };
        assert(r@ =~= Map::<Region, (u32, u32, u32)>::empty());
        r
    }

    /// The smoothed color of `region`, if it was observed.
    pub fn get(&self, region: Region) -> (r: Option<(u32, u32, u32)>)
        ensures
            r is Some <==> self@.contains_key(region),
            r is Some ==> r->Some_0 == self@[region],
    {
        match region {
            Region::Top => self.top,
            Region::Bottom => self.bottom,
            Region::Left => self.left,
            Region::Right => self.right,
            Region::Full => self.full,
        }
    }

    /// Records `color` as the smoothed color of `region`.
    pub fn set(&mut self, region: Region, color: (u32, u32, u32))
        ensures
            final(self)@ == old(self)@.insert(region, color),
    {
        match region {
            Region::Top => self.top = Some(color),
            Region::Bottom => self.bottom = Some(color),
            Region::Left => self.left = Some(color),
            Region::Right => self.right = Some(color),
            Region::Full => self.full = Some(color),
        }
        assert(self@ =~= old(self)@.insert(region, color));
    }
}

pub open spec fn rgb_int(c: (u32, u32, u32)) -> (int, int, int) {
    (c.0 as int, c.1 as int, c.2 as int)
}

/// The previous smoothed color of `region`, black where there is none.
pub open spec fn previous(state: Map<Region, (u32, u32, u32)>, region: Region) -> (int, int, int) {
    if state.contains_key(region) {
        rgb_int(state[region])
    } else {
        (0, 0, 0)
    }
}

/// The new smoothed color of `region`: its color in `frame` smoothed
/// against its previous one.
pub open spec fn next_color(
    state: Map<Region, (u32, u32, u32)>,
    frame: &Frame,
    region: Region,
    config: PipelineConfig,
) -> (u32, u32, u32) {
    let c = smooth_rgb(
        previous(state, region),
        frame.spec_aggregate(region, config.stride as int, config.policy),
        config.smoothing,
    );
    (c.0 as u32, c.1 as u32, c.2 as u32)
}

/// The regions that `lights` follow, one entry per light.
pub open spec fn regions_of(lights: Seq<LightTarget>) -> Seq<Region> {
    lights.map_values(|l: LightTarget| l.region)
}

/// The state after one cycle: each region in `regions` takes its new
/// smoothed color, every other region keeps what it had.
pub open spec fn after_cycle(
    state: Map<Region, (u32, u32, u32)>,
    frame: &Frame,
    regions: Seq<Region>,
    config: PipelineConfig,
) -> Map<Region, (u32, u32, u32)> {
    Map::new(
        |r: Region| state.contains_key(r) || regions.contains(r),
        |r: Region|
            if regions.contains(r) {
                next_color(state, frame, r, config)
            } else {
                state[r]
            },
    )
}

/// `q` sets `light`'s entity to the color of its region in `state`, at the
/// brightness of that color's largest channel.
pub open spec fn request_for(
    q: HASSApiBody,
    light: LightTarget,
    state: Map<Region, (u32, u32, u32)>,
) -> bool {
    let c = state[light.region];
    &&& state.contains_key(light.region)
    &&& q.entity_id@ == light.entity@
    &&& q.rgb_color@ == seq![c.0, c.1, c.2]
    &&& q.brightness as int == max3(c.0 as int, c.1 as int, c.2 as int)
}

/// Each region that `lights` follow was aggregated exactly once, and each
/// light has its request, in order, from the smoothed `state`.
pub open spec fn cycle_output_ok(
    out: CycleOutput,
    lights: Seq<LightTarget>,
    state: Map<Region, (u32, u32, u32)>,
) -> bool {
    &&& out.aggregated@.no_duplicates()
    &&& forall|g: Region| out.aggregated@.contains(g) <==> regions_of(lights).contains(g)
    &&& out.requests@.len() == lights.len()
    &&& forall|i: int|
        0 <= i < lights.len() ==> request_for(#[trigger] out.requests@[i], lights[i], state)
}

/// What one cycle hands out: one request per light, in the order of the
/// lights, and the regions that were aggregated, each once.
pub struct CycleOutput {
    pub requests: Vec<HASSApiBody>,
    pub aggregated: Vec<Region>,
}

proof fn lemma_push_contains<A>(s: Seq<A>, a: A, g: A)
    ensures
        s.push(a).contains(g) <==> s.contains(g) || g == a,
{
    if s.contains(g) {
        let j = choose|j: int| 0 <= j < s.len() && s[j] == g;
        assert(s.push(a)[j] == g);
    }
    if g == a {
        assert(s.push(a)[s.len() as int] == g);
    }
    if s.push(a).contains(g) {
        let j = choose|j: int| 0 <= j < s.push(a).len() && s.push(a)[j] == g;
        if j < s.len() {
            assert(s[j] == g);
        }
    }
}

proof fn lemma_push_no_duplicates<A>(s: Seq<A>, a: A)
    requires
        s.no_duplicates(),
        !s.contains(a),
    ensures
        s.push(a).no_duplicates(),
{
    assert forall|i: int, j: int|
        0 <= i < s.push(a).len() && 0 <= j < s.push(a).len() && i != j implies s.push(a)[i]
        != s.push(a)[j] by {
        if i == s.len() as int {
            assert(s[j] == s.push(a)[j]);
        } else if j == s.len() as int {
            assert(s[i] == s.push(a)[i]);
        }
    }
}

fn contains_region(regions: &Vec<Region>, region: Region) -> (r: bool)
    ensures
        r == regions@.contains(region),
{
    let mut k: usize = 0;
    while k < regions.len()
        invariant
            0 <= k <= regions@.len(),
            forall|j: int| 0 <= j < k ==> regions@[j] != region,
        decreases regions@.len() - k,
    {
        if regions[k] == region {
            return true;
        }
        k = k + 1;
    }
    false
}

/// One cycle over a captured frame. Each distinct region that some light
/// follows is aggregated and smoothed exactly once, and its new color is
/// stored in `state`; then each light gets a request carrying its region's
/// new color, at the brightness of that color's largest channel.
pub fn process_frame(
    frame: &Frame,
    lights: &Vec<LightTarget>,
    config: &PipelineConfig,
    state: &mut SmoothState,
) -> (r: CycleOutput)
    requires
        frame.wf(),
        config.wf(),
    ensures
        final(state)@ == after_cycle(old(state)@, frame, regions_of(lights@), *config),
        cycle_output_ok(r, lights@, final(state)@),
{
    let ghost start = state@;
    let mut aggregated: Vec<Region> = Vec::new();
    let mut i: usize = 0;
    while i < lights.len()
        invariant
            0 <= i <= lights@.len(),
            frame.wf(),
            config.wf(),
            aggregated@.no_duplicates(),
            forall|g: Region|
                aggregated@.contains(g) <==> regions_of(lights@.take(i as int)).contains(g),
            state@ == after_cycle(start, frame, regions_of(lights@.take(i as int)), *config),
        decreases lights@.len() - i,
    {
        let region = lights[i].region;
        let ghost before = regions_of(lights@.take(i as int));
        let ghost after = regions_of(lights@.take(i + 1));
        let ghost agg0 = aggregated@;
        assert(after =~= before.push(region));
        assert forall|g: Region| after.contains(g) <==> before.contains(g) || g == region by {
            lemma_push_contains(before, region, g);
        }
        if !contains_region(&aggregated, region) {
            let color = aggregate(frame, region, config.stride, config.policy);
            let prev = match state.get(region) {
                Some(c) => c,
                None => (0, 0, 0),
            };
            assert(rgb_int(prev) == previous(start, region));
            let smoothed = smooth_colors(prev, color, config.smoothing);
            state.set(region, smoothed);
            aggregated.push(region);
            assert forall|g: Region| aggregated@.contains(g) <==> agg0.contains(g) || g == region by {
                lemma_push_contains(agg0, region, g);
            }
            proof {
                lemma_push_no_duplicates(agg0, region);
            }
            assert forall|g: Region| aggregated@.contains(g) <==> after.contains(g) by {
                assert(agg0.contains(g) <==> before.contains(g));
            }
        } else {
            assert forall|g: Region| aggregated@.contains(g) <==> after.contains(g) by {
                assert(agg0.contains(g) <==> before.contains(g));
                assert(agg0.contains(region));
            }
        }
        i = i + 1;
        assert(state@ =~= after_cycle(start, frame, after, *config));
    }
    assert(lights@.take(lights@.len() as int) =~= lights@);
    let mut requests: Vec<HASSApiBody> = Vec::new();
    let mut j: usize = 0;
    while j < lights.len()
        invariant
            0 <= j <= lights@.len(),
            state@ == after_cycle(start, frame, regions_of(lights@), *config),
            requests@.len() == j,
            forall|k: int| 0 <= k < j ==> request_for(#[trigger] requests@[k], lights@[k], state@),
        decreases lights@.len() - j,
    {
        let light = &lights[j];
        assert(regions_of(lights@)[j as int] == light.region);
        let color = match state.get(light.region) {
            Some(c) => c,
            None => (0, 0, 0),
        };
        assert(regions_of(lights@)[j as int] == light.region);
        requests.push(HASSApiBody::for_color(light.entity.clone(), color));
        j = j + 1;
    }
    CycleOutput { requests, aggregated }
}

/// Two lights that follow the same region get the same color and the same
/// brightness from one cycle.
pub proof fn lemma_shared_region_same_color(
    q1: HASSApiBody,
    q2: HASSApiBody,
    light1: LightTarget,
    light2: LightTarget,
    state: Map<Region, (u32, u32, u32)>,
)
    requires
        request_for(q1, light1, state),
        request_for(q2, light2, state),
        light1.region == light2.region,
    ensures
        q1.rgb_color@ == q2.rgb_color@,
        q1.brightness == q2.brightness,
{
}

/// With `alpha = 1`, a cycle leaves unchanged a state that already holds
/// every region it updates.
pub proof fn lemma_steady_state_unchanged(
    state: Map<Region, (u32, u32, u32)>,
    frame: &Frame,
    regions: Seq<Region>,
    config: PipelineConfig,
)
    requires
        config.wf(),
        config.smoothing.weight == config.smoothing.scale,
        forall|r: Region| regions.contains(r) ==> state.contains_key(r),
    ensures
        after_cycle(state, frame, regions, config) == state,
{
    assert forall|r: Region| regions.contains(r) implies next_color(state, frame, r, config)
        == state[r] by {
        let o = frame.spec_aggregate(r, config.stride as int, config.policy);
        let p = rgb_int(state[r]);
        lemma_smooth_extremes(p.0, o.0, config.smoothing.scale);
        lemma_smooth_extremes(p.1, o.1, config.smoothing.scale);
        lemma_smooth_extremes(p.2, o.2, config.smoothing.scale);
    }
    assert(after_cycle(state, frame, regions, config) =~= state);
}

/// With `alpha = 1`, running a cycle again on the same frame leaves the
/// smoothed state as the first run left it.
pub proof fn lemma_rerun_idempotent(
    state: Map<Region, (u32, u32, u32)>,
    frame: &Frame,
    regions: Seq<Region>,
    config: PipelineConfig,
)
    requires
        config.wf(),
        config.smoothing.weight == config.smoothing.scale,
    ensures
        after_cycle(after_cycle(state, frame, regions, config), frame, regions, config)
            == after_cycle(state, frame, regions, config),
{
    lemma_steady_state_unchanged(after_cycle(state, frame, regions, config), frame, regions, config);
}

} // verus!

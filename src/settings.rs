use vstd::prelude::*;
use crate::capture::ExclusionPolicy;
use crate::pipeline::{LightTarget, PipelineConfig};
use crate::region::Region;
use crate::smoothing::SmoothingFactor;

verus! {

/// One configured light: its entity name and the name of the region it follows.
pub struct LightConfig {
    pub entity_name: String,
    pub position: String,
}

/// The configuration, loaded once at startup.
pub struct Settings {
    pub api_endpoint: String,
    pub lights: Vec<LightConfig>,
    pub token: String,
    /// Milliseconds between cycles.
    pub grab_interval: i16,
    pub smoothing_factor: SmoothingFactor,
    pub monitor_id: i16,
    /// Whether commands are actually sent to the controller.
    pub enable_api_calls: bool,
}

/// Why a configuration cannot be used.
#[derive(Clone, Copy, Debug, PartialEq, Eq, Structural)]
pub enum SettingsError {
    /// The light at this index names no known region.
    UnknownPosition(usize),
    /// The cycle interval is negative.
    NegativeInterval,
    /// The smoothing factor is not a fraction in `[0, 1]`.
    InvalidSmoothing,
    /// No capture target has the configured monitor id.
    NoSuchMonitor,
}

pub fn default_grab_interval() -> (r: i16)
    ensures
        r == 1000,
{
    1000
}

/// One half.
pub fn default_smoothing_factor() -> (r: SmoothingFactor)
    ensures
        r == (SmoothingFactor { weight: 1, scale: 2 }),
{
    SmoothingFactor { weight: 1, scale: 2 }
}

pub fn default_monitor_id() -> (r: i16)
    ensures
        r == 1,
{
    1
}

pub fn default_enable_api_calls() -> (r: bool)
    ensures
        r,
{
    true
}

/// Whether every light in `lights` names a known region.
pub open spec fn all_positions_known(lights: Seq<LightConfig>) -> bool {
    forall|i: int| 0 <= i < lights.len() ==> (#[trigger] Region::named(lights[i].position@)) is Some
}

/// Resolves each light's region name. Fails on the first light whose name
/// is unknown, giving its index.
pub fn resolve_lights(lights: &Vec<LightConfig>) -> (r: Result<Vec<LightTarget>, SettingsError>)
    ensures
        r is Ok <==> all_positions_known(lights@),
        r is Ok ==> {
            let t = r->Ok_0;
            &&& t@.len() == lights@.len()
            &&& forall|i: int|
                0 <= i < lights@.len() ==> {
                    &&& (#[trigger] t@[i]).entity@ == lights@[i].entity_name@
                    &&& Some(t@[i].region) == Region::named(lights@[i].position@)
                }
        },
        r is Err ==> {
            let e = r->Err_0;
            &&& e is UnknownPosition
            &&& e->UnknownPosition_0 < lights@.len()
            &&& Region::named(lights@[e->UnknownPosition_0 as int].position@) is None
            &&& all_positions_known(lights@.take(e->UnknownPosition_0 as int))
        },
{
    let mut targets: Vec<LightTarget> = Vec::new();
    let mut i: usize = 0;
    while i < lights.len()
        invariant
            0 <= i <= lights@.len(),
            targets@.len() == i,
            forall|k: int|
                0 <= k < i ==> {
                    &&& (#[trigger] targets@[k]).entity@ == lights@[k].entity_name@
                    &&& Some(targets@[k].region) == Region::named(lights@[k].position@)
                },
        decreases lights@.len() - i,
    {
        let light = &lights[i];
        match Region::parse(light.position.as_str()) {
            Some(region) => {
                targets.push(LightTarget { entity: light.entity_name.clone(), region });
            },
            None => {
                assert(all_positions_known(lights@.take(i as int))) by {
                    assert forall|k: int| 0 <= k < i implies (#[trigger] Region::named(
                        lights@.take(i as int)[k].position@,
                    )) is Some by {
                        assert(lights@.take(i as int)[k] == lights@[k]);
                        assert(Some(targets@[k].region) == Region::named(lights@[k].position@));
                    }
                }
                return Err(SettingsError::UnknownPosition(i));
            },
        }
        i = i + 1;
    }
    assert(all_positions_known(lights@)) by {
        assert forall|k: int| 0 <= k < lights@.len() implies (#[trigger] Region::named(
            lights@[k].position@,
        )) is Some by {
            assert(Some(targets@[k].region) == Region::named(lights@[k].position@));
        }
    }
    Ok(targets)
}

/// The index of the first capture target whose id is `monitor_id`.
pub fn select_monitor(target_ids: &Vec<u32>, monitor_id: i16) -> (r: Option<usize>)
    ensures
        r is Some ==> {
            let k = r->Some_0;
            &&& k < target_ids@.len()
            &&& target_ids@[k as int] as int == monitor_id as int
            &&& forall|j: int| 0 <= j < k ==> target_ids@[j] as int != monitor_id as int
        },
        r is None ==> forall|j: int|
            0 <= j < target_ids@.len() ==> target_ids@[j] as int != monitor_id as int,
{
    let mut k: usize = 0;
    while k < target_ids.len()
        invariant
            0 <= k <= target_ids@.len(),
            forall|j: int| 0 <= j < k ==> target_ids@[j] as int != monitor_id as int,
        decreases target_ids@.len() - k,
    {
        if monitor_id >= 0 && target_ids[k] as i64 == monitor_id as i64 {
            return Some(k);
        }
        k = k + 1;
    }
    None
}

impl Settings {
    /// What each cycle runs with: the given stride and policy, and the
    /// configured smoothing factor, which must be a fraction in `[0, 1]`.
    pub fn pipeline_config(&self, stride: usize, policy: ExclusionPolicy) -> (r: Result<
        PipelineConfig,
        SettingsError,
    >)
        requires
            stride >= 1,
        ensures
            r is Ok <==> self.smoothing_factor.wf(),
            r is Ok ==> r->Ok_0 == (PipelineConfig {
                stride,
                policy,
                smoothing: self.smoothing_factor,
            }) && r->Ok_0.wf(),
            r is Err ==> r->Err_0 == SettingsError::InvalidSmoothing,
    {
        let f = self.smoothing_factor;
        if 0 < f.scale && f.weight <= f.scale {
            Ok(PipelineConfig { stride, policy, smoothing: f })
        } else {
            Err(SettingsError::InvalidSmoothing)
        }
    }

    /// The cycle interval in milliseconds, or an error where it is negative.
    pub fn interval_ms(&self) -> (r: Result<u64, SettingsError>)
        ensures
            self.grab_interval >= 0 ==> r == Ok::<u64, SettingsError>(self.grab_interval as u64),
            self.grab_interval < 0 ==> r == Err::<u64, SettingsError>(
                SettingsError::NegativeInterval,
            ),
    {
        if self.grab_interval < 0 {
            Err(SettingsError::NegativeInterval)
        } else {
            Ok(self.grab_interval as u64)
        }
    }
}

} // verus!

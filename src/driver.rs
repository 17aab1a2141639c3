use vstd::prelude::*;
use crate::capture::Frame;
use crate::pipeline::{
    after_cycle,
    cycle_output_ok,
    process_frame,
    regions_of,
    CycleOutput,
    LightTarget,
    PipelineConfig,
    SmoothState,
};

verus! {

/// What the capture loop reports to the driver.
pub enum DriverEvent {
    /// A frame arrived, `elapsed_ms` after the last cycle that ran.
    FrameCaptured { frame: Frame, elapsed_ms: u64 },
    /// The frame source failed this time.
    CaptureFailed,
    /// Shutdown was asked for.
    StopRequested,
}

/// What the capture loop is to do next.
pub enum DriverAction {
    /// Send these requests, one per light.
    Dispatch(CycleOutput),
    /// The next cycle is not due yet; drop the frame.
    NotDue,
    /// No usable frame this time; try again at the next one.
    SkipCycle,
    /// Stop capturing and close the session.
    Stop,
}

/// The decisions of the capture loop: when a cycle runs, and the smoothed
/// state that cycles carry from one to the next.
pub struct Driver {
    pub lights: Vec<LightTarget>,
    pub config: PipelineConfig,
    pub interval_ms: u64,
    pub state: SmoothState,
    pub stopped: bool,
}

impl Driver {
    /// A driver that has seen nothing yet.
    pub fn new(lights: Vec<LightTarget>, config: PipelineConfig, interval_ms: u64) -> (r: Driver)
        ensures
            r.lights@ == lights@,
            r.config == config,
            r.interval_ms == interval_ms,
            r.state@ == Map::<crate::region::Region, (u32, u32, u32)>::empty(),
            !r.stopped,
    {
        Driver { lights, config, interval_ms, state: SmoothState::new(), stopped: false }
    }

    /// Takes one event. Once stopped, the driver only answers `Stop`. A
    /// failed capture, or a frame whose buffer is short, skips the cycle; a
    /// frame that comes before the interval has passed is dropped; any other
    /// frame runs a cycle, which updates the smoothed state.
    pub fn on_event(&mut self, event: DriverEvent) -> (r: DriverAction)
        requires
            old(self).config.wf(),
        ensures
            final(self).lights@ == old(self).lights@,
            final(self).config == old(self).config,
            final(self).interval_ms == old(self).interval_ms,
            old(self).stopped ==> r is Stop,
            r is Stop <==> old(self).stopped || event is StopRequested,
            final(self).stopped == (r is Stop),
            !(r is Dispatch) ==> final(self).state@ == old(self).state@,
            (!old(self).stopped && event is CaptureFailed) ==> r is SkipCycle,
            match event {
                DriverEvent::FrameCaptured { frame, elapsed_ms } => !old(self).stopped ==> {
                    if elapsed_ms < old(self).interval_ms {
                        r is NotDue
                    } else if !frame.wf() {
                        r is SkipCycle
                    } else {
                        &&& r is Dispatch
                        &&& final(self).state@ == after_cycle(
                            old(self).state@,
                            &frame,
                            regions_of(old(self).lights@),
                            old(self).config,
                        )
                        &&& cycle_output_ok(r->Dispatch_0, old(self).lights@, final(self).state@)
                    }
                },
                _ => true,
            },
    {
        if self.stopped {
            return DriverAction::Stop;
        }
        match event {
            DriverEvent::StopRequested => {
                self.stopped = true;
                DriverAction::Stop
            },
            DriverEvent::CaptureFailed => DriverAction::SkipCycle,
            DriverEvent::FrameCaptured { frame, elapsed_ms } => {
                if elapsed_ms < self.interval_ms {
                    DriverAction::NotDue
                } else if !frame.is_well_formed() {
                    DriverAction::SkipCycle
                } else {
                    let out = process_frame(&frame, &self.lights, &self.config, &mut self.state);
                    DriverAction::Dispatch(out)
                }
            },
        }
    }
}

} // verus!

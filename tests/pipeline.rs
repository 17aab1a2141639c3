use ambilight::capture::{ExclusionPolicy, Frame, PixelFormat};
use ambilight::driver::{Driver, DriverAction, DriverEvent};
use ambilight::pipeline::{process_frame, LightTarget, PipelineConfig, SmoothState};
use ambilight::region::Region;
use ambilight::smoothing::SmoothingFactor;

fn uniform(width: usize, height: usize, pixel: [u8; 3]) -> Frame {
    let mut data = Vec::new();
    for _ in 0..width * height {
        data.extend_from_slice(&pixel);
    }
    Frame { width, height, format: PixelFormat::Rgb, data }
}

fn light(entity: &str, region: Region) -> LightTarget {
    LightTarget { entity: entity.to_string(), region }
}

fn config(weight: u32, scale: u32) -> PipelineConfig {
    PipelineConfig {
        stride: 1,
        policy: ExclusionPolicy::ExcludeBlack,
        smoothing: SmoothingFactor::new(weight, scale).unwrap(),
    }
}

#[test]
fn two_lights_on_one_region_share_one_aggregation() {
    let frame = uniform(100, 100, [255, 255, 255]);
    let lights = vec![light("A", Region::Top), light("B", Region::Top)];
    let mut state = SmoothState::new();
    let out = process_frame(&frame, &lights, &config(1, 2), &mut state);
    assert_eq!(out.aggregated, vec![Region::Top]);
    assert_eq!(out.requests.len(), 2);
    assert_eq!(out.requests[0].entity_id, "A");
    assert_eq!(out.requests[1].entity_id, "B");
    // The first observation is smoothed against black: half of 255.
    assert_eq!(out.requests[0].rgb_color, [127, 127, 127]);
    assert_eq!(out.requests[1].rgb_color, [127, 127, 127]);
    assert_eq!(out.requests[0].brightness, 127);
    assert_eq!(out.requests[1].brightness, 127);
    assert_eq!(state.get(Region::Top), Some((127, 127, 127)));
    assert_eq!(state.get(Region::Bottom), None);
}

#[test]
fn white_frame_with_alpha_zero_reaches_white() {
    let frame = uniform(100, 100, [255, 255, 255]);
    let lights = vec![light("A", Region::Top), light("B", Region::Top)];
    let mut state = SmoothState::new();
    let out = process_frame(&frame, &lights, &config(0, 2), &mut state);
    assert_eq!(out.aggregated.len(), 1);
    for q in &out.requests {
        assert_eq!(q.rgb_color, [255, 255, 255]);
        assert_eq!(q.brightness, 255);
    }
}

#[test]
fn each_distinct_region_aggregated_once() {
    let frame = uniform(9, 9, [10, 20, 30]);
    let lights = vec![
        light("a", Region::Left),
        light("b", Region::Right),
        light("c", Region::Left),
        light("d", Region::Full),
        light("e", Region::Right),
    ];
    let mut state = SmoothState::new();
    let out = process_frame(&frame, &lights, &config(0, 1), &mut state);
    assert_eq!(out.aggregated, vec![Region::Left, Region::Right, Region::Full]);
    assert_eq!(out.requests.len(), 5);
    for q in &out.requests {
        assert_eq!(q.rgb_color, [10, 20, 30]);
    }
    assert_eq!(state.get(Region::Top), None);
}

#[test]
fn brightness_is_largest_channel() {
    let frame = uniform(6, 6, [40, 220, 90]);
    let lights = vec![light("x", Region::Full)];
    let mut state = SmoothState::new();
    let out = process_frame(&frame, &lights, &config(0, 1), &mut state);
    assert_eq!(out.requests[0].rgb_color, [40, 220, 90]);
    assert_eq!(out.requests[0].brightness, 220);
}

#[test]
fn rerun_with_alpha_one_keeps_state() {
    let frame = uniform(6, 6, [40, 220, 90]);
    let lights = vec![light("x", Region::Full), light("y", Region::Bottom)];
    let mut state = SmoothState::new();
    let cfg = config(5, 5);
    process_frame(&frame, &lights, &cfg, &mut state);
    let full = state.get(Region::Full);
    let bottom = state.get(Region::Bottom);
    assert_eq!(full, Some((0, 0, 0)));
    process_frame(&frame, &lights, &cfg, &mut state);
    assert_eq!(state.get(Region::Full), full);
    assert_eq!(state.get(Region::Bottom), bottom);
}

#[test]
fn smoothing_carries_across_cycles() {
    let lights = vec![light("x", Region::Full)];
    let mut state = SmoothState::new();
    let cfg = config(1, 2);
    process_frame(&uniform(3, 3, [200, 100, 40]), &lights, &cfg, &mut state);
    assert_eq!(state.get(Region::Full), Some((100, 50, 20)));
    let out = process_frame(&uniform(3, 3, [200, 100, 40]), &lights, &cfg, &mut state);
    assert_eq!(out.requests[0].rgb_color, [150, 75, 30]);
    assert_eq!(out.requests[0].brightness, 150);
}

#[test]
fn no_lights_no_work() {
    let mut state = SmoothState::new();
    let out = process_frame(&uniform(3, 3, [1, 2, 3]), &Vec::new(), &config(1, 2), &mut state);
    assert!(out.aggregated.is_empty());
    assert!(out.requests.is_empty());
    assert_eq!(state.get(Region::Full), None);
}

#[test]
fn driver_runs_cycles_when_due() {
    let lights = vec![light("x", Region::Full)];
    let mut driver = Driver::new(lights, config(0, 1), 100);
    let early = driver.on_event(DriverEvent::FrameCaptured { frame: uniform(3, 3, [9, 9, 9]), elapsed_ms: 99 });
    assert!(matches!(early, DriverAction::NotDue));
    assert_eq!(driver.state.get(Region::Full), None);
    let due = driver.on_event(DriverEvent::FrameCaptured { frame: uniform(3, 3, [9, 9, 9]), elapsed_ms: 100 });
    match due {
        DriverAction::Dispatch(out) => assert_eq!(out.requests[0].rgb_color, [9, 9, 9]),
        _ => panic!("expected a dispatch"),
    }
    assert_eq!(driver.state.get(Region::Full), Some((9, 9, 9)));
}

#[test]
fn driver_skips_failed_and_short_frames() {
    let mut driver = Driver::new(vec![light("x", Region::Full)], config(0, 1), 0);
    assert!(matches!(driver.on_event(DriverEvent::CaptureFailed), DriverAction::SkipCycle));
    let short = Frame { width: 3, height: 3, format: PixelFormat::Rgb, data: vec![1; 5] };
    assert!(matches!(
        driver.on_event(DriverEvent::FrameCaptured { frame: short, elapsed_ms: 10 }),
        DriverAction::SkipCycle
    ));
    assert_eq!(driver.state.get(Region::Full), None);
    assert!(!driver.stopped);
}

#[test]
fn driver_stops_for_good() {
    let mut driver = Driver::new(vec![light("x", Region::Full)], config(0, 1), 0);
    assert!(matches!(driver.on_event(DriverEvent::StopRequested), DriverAction::Stop));
    assert!(driver.stopped);
    let after = driver.on_event(DriverEvent::FrameCaptured { frame: uniform(3, 3, [9, 9, 9]), elapsed_ms: 10 });
    assert!(matches!(after, DriverAction::Stop));
    assert_eq!(driver.state.get(Region::Full), None);
}

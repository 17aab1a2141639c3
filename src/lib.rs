//! Screen-driven ambient lighting: regional color aggregation over captured
//! frames, exponential smoothing across cycles, region-deduplicated fan-out
//! to light entities, and the session discipline of the lighting controller.
pub mod api;
pub mod capture;
pub mod driver;
pub mod models;
pub mod pipeline;
pub mod region;
pub mod settings;
pub mod smoothing;

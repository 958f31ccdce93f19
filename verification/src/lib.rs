//! Fixed-memory temporal signal buffer.
//!
//! Writers deposit quantized signals into spatial regions of a current frame;
//! the substrate accumulates, decays and evaluates those regions on every
//! write and tick; registered observers receive events when a region's energy
//! crosses its thresholds, and when enough regions are active at once.

pub mod config;
pub mod field;
pub mod observer;
pub mod signal;
pub mod vector;

pub use config::FieldConfig;
pub use field::{FieldView, TemporalField};
pub use observer::{
    ChannelObserver, EventView, FieldEvent, FieldObserver, FnObserver, MonitoredRegion,
    TriggerConfig, DEFAULT_HYSTERESIS_GAP,
};
pub use signal::Signal;
pub use vector::FieldVector;

use std::sync::atomic::{AtomicUsize, Ordering};
use std::sync::Arc;
use temporal_field::{
    ChannelObserver, FieldConfig, FieldEvent, FieldVector, FnObserver, MonitoredRegion, Signal,
    TemporalField,
};

#[test]
fn decay_monotonic_until_zero() {
    // With retention below 255, every decay step strictly shrinks a nonzero
    // magnitude; once zero, decay is a no-op.
    let mut v = FieldVector::new(1);
    v.set(0, Signal::positive(200));
    let mut last = 200u8;
    let mut steps = 0;
    while v.get(0).magnitude > 0 {
        v.decay(242);
        let m = v.get(0).magnitude;
        assert!(m < last, "decay must strictly decrease a nonzero magnitude");
        last = m;
        steps += 1;
        assert!(steps < 10_000);
    }
    assert_eq!(v.get(0).polarity, 0, "zero signal is canonical");
    v.decay(242);
    assert_eq!(v.get(0).magnitude, 0);
    assert_eq!(v.get(0).polarity, 0);
}

#[test]
fn saturating_add_stays_in_range() {
    // Adding extreme intensities clamps at the representable bounds.
    let mut v = FieldVector::new(3);
    v.set_i16(0, 255);
    v.set_i16(1, -255);
    v.set_i16(2, 255);
    let mut other = FieldVector::new(3);
    other.set_i16(0, 255);
    other.set_i16(1, -255);
    other.set_i16(2, -255);
    v.add(&other);
    assert_eq!(v.get_i16(0), 255);
    assert_eq!(v.get_i16(1), -255);
    assert_eq!(v.get_i16(2), 0);
}

#[test]
fn from_signed_clamps() {
    let s = Signal::from_signed_i32(300);
    assert_eq!((s.polarity, s.magnitude), (1, 255));
    let s = Signal::from_signed_i32(-400);
    assert_eq!((s.polarity, s.magnitude), (-1, 255));
    let s = Signal::from_signed_i32(0);
    assert_eq!((s.polarity, s.magnitude), (0, 0));
}

#[test]
fn ring_wrap_beyond_capacity() {
    // Writing k frames with k > frame_count leaves the head at k mod frame_count.
    let config = FieldConfig::new(8, 3, 255);
    let mut field: TemporalField<ChannelObserver> = TemporalField::new(config);
    for i in 0..7u32 {
        field.clear_current();
        let signals = vec![Signal::positive((i + 1) as u8); 8];
        field.set_region(&signals, 0..8);
        field.advance_write_head();
    }
    assert_eq!(field.write_head(), 7 % 3);
}

#[test]
fn window_chronology_partial_window() {
    // A window narrower than the deposits returns the latest frames, oldest first.
    let config = FieldConfig::new(2, 5, 255);
    let mut field: TemporalField<ChannelObserver> = TemporalField::new(config);
    for i in 0..4u32 {
        field.clear_current();
        field.set_region(&[Signal::positive((10 * (i + 1)) as u8)], 0..1);
        field.advance_write_head();
    }
    let window = field.read_window(2);
    assert_eq!(window.len(), 2);
    assert_eq!(window[0].get(0).magnitude, 30);
    assert_eq!(window[1].get(0).magnitude, 40);
}

#[test]
fn convergence_fires_iff_enough_regions() {
    let config = FieldConfig::new(96, 4, 255);
    let mut field = TemporalField::new(config);
    field.monitor_region(MonitoredRegion::new("a", 0..32, 50_000));
    field.monitor_region(MonitoredRegion::new("b", 32..64, 50_000));
    field.monitor_region(MonitoredRegion::new("c", 64..96, 50_000));
    field.set_convergence_threshold(3);

    let convergences = Arc::new(AtomicUsize::new(0));
    let cc = convergences.clone();
    field.subscribe(FnObserver::new(move |event| {
        if matches!(event, FieldEvent::Convergence { .. }) {
            cc.fetch_add(1, Ordering::SeqCst);
        }
    }));

    let signals = vec![Signal::positive(128); 32];
    field.write_region(&signals, 0..32);
    field.write_region(&signals, 32..64);
    assert_eq!(convergences.load(Ordering::SeqCst), 0, "two active regions are below the threshold");

    field.write_region(&signals, 64..96);
    assert_eq!(convergences.load(Ordering::SeqCst), 1, "three active regions reach the threshold");
}

#[test]
fn no_events_without_regions() {
    // Even with a zero convergence threshold, an empty region list emits nothing.
    let config = FieldConfig::new(8, 2, 255);
    let mut field = TemporalField::new(config);
    field.set_convergence_threshold(0);
    let events = Arc::new(AtomicUsize::new(0));
    let ec = events.clone();
    field.subscribe(FnObserver::new(move |_event| {
        ec.fetch_add(1, Ordering::SeqCst);
    }));
    field.write_region(&vec![Signal::positive(255); 8], 0..8);
    field.tick();
    assert_eq!(events.load(Ordering::SeqCst), 0);
}

#[test]
fn clone_isolation() {
    let config = FieldConfig::new(32, 4, 255);
    let mut field = TemporalField::new(config);
    field.monitor_region(MonitoredRegion::new("r", 0..32, 1_000));
    let count = Arc::new(AtomicUsize::new(0));
    let cc = count.clone();
    field.subscribe(FnObserver::new(move |_event| {
        cc.fetch_add(1, Ordering::SeqCst);
    }));

    let mut copy = field.clone();
    // The clone carries the data but no subscribers: events on it reach nobody.
    copy.write_region(&vec![Signal::positive(128); 32], 0..32);
    assert_eq!(count.load(Ordering::SeqCst), 0, "a clone starts with zero observers");

    // The first field's observers are untouched.
    field.write_region(&vec![Signal::positive(128); 32], 0..32);
    assert_eq!(count.load(Ordering::SeqCst), 1);
}

#[test]
fn end_to_end_binding_scenario() {
    // Two modalities activating in the same frame raise one activation each
    // and exactly one convergence listing both ranges, in that order.
    let config = FieldConfig::new(128, 50, 242);
    let mut field = TemporalField::new(config);
    field.monitor_region(MonitoredRegion::new("audio", 0..64, 100_000));
    field.monitor_region(MonitoredRegion::new("text", 64..128, 100_000));
    field.set_convergence_threshold(2);

    let (tx, rx) = std::sync::mpsc::channel();
    field.subscribe(ChannelObserver::new(tx));

    let burst = vec![Signal::positive(128); 64];
    field.write_region(&burst, 0..64);
    let first: Vec<FieldEvent> = rx.try_iter().collect();
    assert_eq!(first.len(), 1);
    match &first[0] {
        FieldEvent::RegionActive { region, energy, threshold } => {
            assert_eq!((region.start, region.end), (0, 64));
            assert_eq!(*energy, 64 * 128 * 128);
            assert_eq!(*threshold, 100_000);
        }
        _ => panic!("expected the audio region to activate"),
    }

    field.write_region(&burst, 64..128);
    let second: Vec<FieldEvent> = rx.try_iter().collect();
    assert_eq!(second.len(), 2);
    match &second[0] {
        FieldEvent::RegionActive { region, .. } => {
            assert_eq!((region.start, region.end), (64, 128));
        }
        _ => panic!("expected the text region to activate"),
    }
    match &second[1] {
        FieldEvent::Convergence { active_regions, total_energy } => {
            assert_eq!(active_regions.len(), 2);
            assert_eq!((active_regions[0].start, active_regions[0].end), (0, 64));
            assert_eq!((active_regions[1].start, active_regions[1].end), (64, 128));
            // Both regions carry 64 * 128^2 energy at weight 100.
            assert_eq!(*total_energy, 2 * 64 * 128 * 128);
        }
        _ => panic!("expected one convergence event"),
    }
}

#[test]
fn region_peak_returns_strongest_frame() {
    let config = FieldConfig::new(2, 4, 255);
    let mut field: TemporalField<ChannelObserver> = TemporalField::new(config);
    for m in [40u8, 90, 60] {
        field.clear_current();
        field.set_region(&[Signal::positive(m)], 0..1);
        field.advance_write_head();
    }
    let peak = field.region_peak(0..1, 3);
    assert_eq!(peak.len(), 1);
    assert_eq!(peak[0].magnitude, 90);
}

#[test]
fn region_peak_empty_window_is_zero() {
    let config = FieldConfig::new(4, 2, 255);
    let field: TemporalField<ChannelObserver> = TemporalField::new(config);
    let peak = field.region_peak(0..3, 0);
    assert_eq!(peak.len(), 3);
    assert!(peak.iter().all(|s| s.magnitude == 0 && s.polarity == 0));
}

#[test]
fn field_metrics() {
    let config = FieldConfig::new(4, 3, 255);
    let mut field: TemporalField<ChannelObserver> = TemporalField::new(config);
    field.set_region(&[Signal::positive(10), Signal::negative(200)], 0..2);
    field.advance_write_head();
    field.set_region(&[Signal::positive(55)], 0..1);
    assert_eq!(field.max_magnitude(), 200);
    assert_eq!(field.total_activity(), 3);
    assert_eq!(field.read_current().non_zero_count(), 1);
}

#[test]
fn clear_resets_everything() {
    let config = FieldConfig::new(8, 3, 128);
    let mut field = TemporalField::new(config);
    field.monitor_region(MonitoredRegion::new("r", 0..8, 100));
    let activations = Arc::new(AtomicUsize::new(0));
    let ac = activations.clone();
    field.subscribe(FnObserver::new(move |event| {
        if matches!(event, FieldEvent::RegionActive { .. }) {
            ac.fetch_add(1, Ordering::SeqCst);
        }
    }));
    field.write_region(&vec![Signal::positive(200); 8], 0..8);
    assert_eq!(activations.load(Ordering::SeqCst), 1);
    field.advance_write_head();
    field.tick();
    field.clear();
    assert_eq!(field.write_head(), 0);
    assert_eq!(field.tick_count(), 0);
    assert_eq!(field.total_activity(), 0);
    // After the clear, the region is quiet again: a fresh write re-activates it.
    field.write_region(&vec![Signal::positive(200); 8], 0..8);
    assert_eq!(activations.load(Ordering::SeqCst), 2);
}

#[test]
fn time_conversions() {
    let config = FieldConfig::new(8, 2, 255); // 100 Hz
    let field: TemporalField<ChannelObserver> = TemporalField::new(config);
    assert_eq!(field.ticks_to_ms(50), 500);
    assert_eq!(field.ms_to_ticks(500), 50);
    assert_eq!(field.ticks_to_ms(0), 0);
}

#[test]
fn validate_error_messages() {
    assert_eq!(FieldConfig::new(0, 10, 242).validate().unwrap_err(), "dims must be > 0");
    assert_eq!(FieldConfig::new(64, 0, 242).validate().unwrap_err(), "frame_count must be > 0");
}

#[test]
fn ranged_writes_clamp_to_bounds() {
    // Writes past the end of the vector are silently ignored, and a slice
    // longer than the range only fills the range.
    let mut v = FieldVector::new(4);
    let signals = vec![Signal::positive(100); 8];
    v.add_to_range(&signals, 2..10);
    assert_eq!(v.get(0).magnitude, 0);
    assert_eq!(v.get(2).magnitude, 100);
    assert_eq!(v.get(3).magnitude, 100);

    let mut w = FieldVector::new(4);
    w.set_range(&signals, 1..3);
    assert_eq!(w.get(0).magnitude, 0);
    assert_eq!(w.get(1).magnitude, 100);
    assert_eq!(w.get(2).magnitude, 100);
    assert_eq!(w.get(3).magnitude, 0);

    // Reads clamp to the valid suffix.
    let tail = v.get_range(3..10);
    assert_eq!(tail.len(), 1);
    assert_eq!(tail[0].magnitude, 100);
}

#[test]
fn gap_builders_clamp() {
    let region = MonitoredRegion::new("r", 0..4, 1000).with_gap(150);
    assert_eq!(region.off_threshold, 0); // gap clamped to 100%
    let zero = MonitoredRegion::with_hysteresis("z", 0..4, 0, 0);
    assert_eq!(zero.hysteresis_gap(), 0);
}

#[test]
fn default_vector_and_triggers() {
    let v = FieldVector::default();
    assert_eq!(v.dims(), 64);
    assert!(v.is_zero());
    let config = FieldConfig::new(8, 2, 255);
    let field: TemporalField<ChannelObserver> = TemporalField::new(config);
    assert_eq!(field.triggers().convergence_threshold, 2);
    assert_eq!(field.regions().len(), 0);
}

#[test]
fn from_signals_and_slices() {
    let signals = vec![Signal::positive(5), Signal::negative(7)];
    let v = FieldVector::from_signals(signals);
    assert_eq!(v.dims(), 2);
    let s = v.as_slice();
    assert_eq!(s[0].magnitude, 5);
    assert_eq!(s[1].polarity, -1);
    let mut c = v.clone();
    c.scale(0);
    assert_eq!(c.get(0).magnitude, 0);
    assert_eq!(v.get(0).magnitude, 5);
    let m = c.as_mut_slice();
    m[1] = Signal::positive(9);
    assert_eq!(c.get(1).magnitude, 9);
}

#[test]
fn tick_n_advances_and_decays() {
    let config = FieldConfig::new(2, 2, 128);
    let mut field: TemporalField<ChannelObserver> = TemporalField::new(config);
    field.set_region(&[Signal::positive(200)], 0..1);
    field.tick_n(3);
    assert_eq!(field.tick_count(), 3);
    // 200 -> 100 -> 50 -> 25
    assert_eq!(field.read_current().get(0).magnitude, 25);
}

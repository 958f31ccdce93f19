use std::sync::atomic::{AtomicUsize, Ordering};
use std::sync::Arc;
use temporal_field::{
    ChannelObserver, FieldConfig, FieldEvent, FnObserver, MonitoredRegion, Signal, TemporalField,
};

#[test]
fn test_new_field() {
    let config = FieldConfig::new(64, 10, 242); // 242 ~ 0.95
    let field: TemporalField<ChannelObserver> = TemporalField::new(config);

    assert_eq!(field.dims(), 64);
    assert_eq!(field.frame_count(), 10);
    assert_eq!(field.tick_count(), 0);
    assert_eq!(field.total_activity(), 0);
}

#[test]
fn test_write_and_read_region() {
    let config = FieldConfig::new(128, 10, 242);
    let mut field: TemporalField<ChannelObserver> = TemporalField::new(config);

    let signals = vec![Signal::positive(128); 32];
    field.write_region(&signals, 0..32);

    // Energy = 32 * 128^2 = 524288
    assert!(field.region_active(0..32, 1000));
    assert!(!field.region_active(32..64, 1000));
}

#[test]
fn field_test_decay() {
    let config = FieldConfig::new(64, 10, 128); // 50% retention
    let mut field: TemporalField<ChannelObserver> = TemporalField::new(config);

    let signals = vec![Signal::positive(200); 64];
    field.write_region(&signals, 0..64);
    let initial = field.region_energy(0..64);

    field.tick();
    let after_tick = field.region_energy(0..64);

    // After 50% decay, energy should be ~25% (magnitude halved, energy = mag^2)
    assert!(after_tick < initial / 2);
}

#[test]
fn test_region_active_fires_event() {
    let config = FieldConfig::new(64, 10, 242);
    let mut field = TemporalField::new(config);

    // Configure: add monitored region
    field.monitor_region(MonitoredRegion::new("test", 0..32, 100_000));

    // Subscribe reader
    let count = Arc::new(AtomicUsize::new(0));
    let count_clone = count.clone();
    field.subscribe(FnObserver::new(move |event| {
        if matches!(event, FieldEvent::RegionActive { .. }) {
            count_clone.fetch_add(1, Ordering::SeqCst);
        }
    }));

    // Writer writes - fires event to reader (magnitude 128, energy = 32 * 16384 = 524288)
    let signals = vec![Signal::positive(128); 32];
    field.write_region(&signals, 0..32);

    assert_eq!(count.load(Ordering::SeqCst), 1);
}

#[test]
fn test_convergence_fires() {
    let config = FieldConfig::new(128, 10, 242);
    let mut field = TemporalField::new(config);

    // Configure: add monitored regions (threshold = 50000)
    field.monitor_region(MonitoredRegion::new("a", 0..32, 50_000));
    field.monitor_region(MonitoredRegion::new("b", 32..64, 50_000));
    field.monitor_region(MonitoredRegion::new("c", 64..96, 50_000));
    field.set_convergence_threshold(2);

    let convergence_count = Arc::new(AtomicUsize::new(0));
    let cc = convergence_count.clone();

    field.subscribe(FnObserver::new(move |event| {
        if matches!(event, FieldEvent::Convergence { .. }) {
            cc.fetch_add(1, Ordering::SeqCst);
        }
    }));

    // Write to two regions - should trigger convergence
    let signals = vec![Signal::positive(128); 32];
    field.write_region(&signals, 0..32);
    field.write_region(&signals, 32..64);

    assert!(convergence_count.load(Ordering::SeqCst) >= 1);
}

#[test]
fn test_ring_buffer_wrap() {
    let config = FieldConfig::new(64, 3, 255); // No decay
    let mut field: TemporalField<ChannelObserver> = TemporalField::new(config);

    for i in 0..5 {
        field.clear_current();
        let signals = vec![Signal::positive(((i + 1) * 25) as u8); 64];
        field.write_region(&signals, 0..64);
        field.advance_write_head();
    }

    assert_eq!(field.write_head(), 2);
}

#[test]
fn test_window_chronological() {
    let config = FieldConfig::new(64, 5, 255); // No decay
    let mut field: TemporalField<ChannelObserver> = TemporalField::new(config);

    for i in 0..3 {
        field.clear_current();
        let signals = vec![Signal::positive(((i + 1) * 50) as u8); 1];
        field.write_region(&signals, 0..1);
        field.advance_write_head();
    }

    let window = field.read_window(3);
    assert_eq!(window.len(), 3);

    assert_eq!(window[0].get(0).magnitude, 50);
    assert_eq!(window[1].get(0).magnitude, 100);
    assert_eq!(window[2].get(0).magnitude, 150);
}

#[test]
fn test_hysteresis_prevents_chattering() {
    // Use single dimension for simpler energy calculation
    // Energy = magnitude^2 for single dimension
    let config = FieldConfig::new(1, 10, 255); // No decay for clarity
    let mut field = TemporalField::new(config);

    // Region with explicit hysteresis:
    // on_threshold = 10000 (mag ~100), off_threshold = 2500 (mag ~50)
    field.monitor_region(MonitoredRegion::with_hysteresis("test", 0..1, 10000, 2500));

    let active_count = Arc::new(AtomicUsize::new(0));
    let quiet_count = Arc::new(AtomicUsize::new(0));
    let ac = active_count.clone();
    let qc = quiet_count.clone();

    field.subscribe(FnObserver::new(move |event| match event {
        FieldEvent::RegionActive { .. } => {
            ac.fetch_add(1, Ordering::SeqCst);
        }
        FieldEvent::RegionQuiet { .. } => {
            qc.fetch_add(1, Ordering::SeqCst);
        }
        _ => {}
    }));

    // Write magnitude 120 -> energy = 14400 (above on_threshold 10000) -> should fire RegionActive
    field.set_region(&[Signal::positive(120)], 0..1);
    assert_eq!(active_count.load(Ordering::SeqCst), 1, "Should fire RegionActive");
    assert_eq!(quiet_count.load(Ordering::SeqCst), 0, "Should not fire RegionQuiet");

    // Write magnitude 70 -> energy = 4900 (between thresholds: below on=10000 but above off=2500)
    // Should NOT fire any event due to hysteresis
    field.set_region(&[Signal::positive(70)], 0..1);
    assert_eq!(active_count.load(Ordering::SeqCst), 1, "Should not fire again (hysteresis)");
    assert_eq!(quiet_count.load(Ordering::SeqCst), 0, "Should stay active (hysteresis)");

    // Write magnitude 40 -> energy = 1600 (below off_threshold 2500) -> should fire RegionQuiet
    field.set_region(&[Signal::positive(40)], 0..1);
    assert_eq!(active_count.load(Ordering::SeqCst), 1, "Should not fire RegionActive");
    assert_eq!(quiet_count.load(Ordering::SeqCst), 1, "Should fire RegionQuiet");

    // Write magnitude 70 -> energy = 4900 (above off=2500 but below on=10000)
    // Should NOT fire any event (need to exceed on_threshold to become active again)
    field.set_region(&[Signal::positive(70)], 0..1);
    assert_eq!(active_count.load(Ordering::SeqCst), 1, "Should not become active (hysteresis)");
    assert_eq!(quiet_count.load(Ordering::SeqCst), 1, "Should stay quiet");

    // Write magnitude 120 -> energy = 14400 (above on_threshold 10000) -> should fire RegionActive again
    field.set_region(&[Signal::positive(120)], 0..1);
    assert_eq!(active_count.load(Ordering::SeqCst), 2, "Should fire RegionActive again");
}

#[test]
fn test_region_mean() {
    let config = FieldConfig::new(4, 5, 255); // No decay
    let mut field: TemporalField<ChannelObserver> = TemporalField::new(config);

    // Write 3 frames with different values
    field.set_region(&[Signal::positive(60)], 0..1);
    field.advance_write_head();
    field.set_region(&[Signal::positive(120)], 0..1);
    field.advance_write_head();
    field.set_region(&[Signal::positive(180)], 0..1);
    field.advance_write_head();

    let mean = field.region_mean(0..1, 3);
    // (60 + 120 + 180) / 3 = 120
    assert_eq!(mean[0].magnitude, 120);
}

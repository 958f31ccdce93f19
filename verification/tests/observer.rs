use temporal_field::MonitoredRegion;

#[test]
fn test_default_hysteresis() {
    // Default gap is 20%
    let region = MonitoredRegion::new("test", 0..32, 1000);
    assert_eq!(region.on_threshold, 1000);
    assert_eq!(region.off_threshold, 800); // 1000 * 80 / 100
    assert_eq!(region.hysteresis_gap(), 20);
}

#[test]
fn test_custom_hysteresis() {
    let region = MonitoredRegion::with_hysteresis("test", 0..32, 1000, 700);
    assert_eq!(region.on_threshold, 1000);
    assert_eq!(region.off_threshold, 700);
    assert_eq!(region.hysteresis_gap(), 30);
}

#[test]
fn test_with_gap() {
    let region = MonitoredRegion::new("test", 0..32, 1000).with_gap(30);
    assert_eq!(region.on_threshold, 1000);
    assert_eq!(region.off_threshold, 700); // 1000 * 70 / 100
}

#[test]
fn test_with_weight() {
    let region = MonitoredRegion::new("test", 0..32, 1000).with_weight(150);
    assert_eq!(region.weight, 150);
}

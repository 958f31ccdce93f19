use temporal_field::FieldConfig;

#[test]
fn test_config_new() {
    let config = FieldConfig::new(64, 10, 242); // 242 ~ 0.95
    assert_eq!(config.dims, 64);
    assert_eq!(config.frame_count, 10);
    assert_eq!(config.retention, 242);
}

#[test]
fn test_window_ms() {
    let config = FieldConfig::new(64, 50, 255);
    // 50 frames at 100Hz = 500ms
    assert_eq!(config.window_ms(), 500);
}

#[test]
fn test_validate() {
    let valid = FieldConfig::new(64, 10, 242);
    assert!(valid.validate().is_ok());

    let invalid_dims = FieldConfig::new(0, 10, 242);
    assert!(invalid_dims.validate().is_err());

    let invalid_frames = FieldConfig::new(64, 0, 242);
    assert!(invalid_frames.validate().is_err());
}

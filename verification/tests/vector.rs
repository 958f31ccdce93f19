use temporal_field::{FieldVector, Signal};

#[test]
fn test_new_is_zero() {
    let v = FieldVector::new(128);
    assert!(v.is_zero());
    assert_eq!(v.non_zero_count(), 0);
}

#[test]
fn test_set_get_signal() {
    let mut v = FieldVector::new(64);
    v.set(0, Signal::positive(200));
    v.set(10, Signal::negative(128));

    assert_eq!(v.get(0).polarity, 1);
    assert_eq!(v.get(0).magnitude, 200);
    assert_eq!(v.get(10).polarity, -1);
    assert_eq!(v.get(10).magnitude, 128);
}

#[test]
fn test_i16_interface() {
    let mut v = FieldVector::new(64);
    v.set_i16(0, 200); // positive
    v.set_i16(1, -128); // negative

    assert_eq!(v.get_i16(0), 200);
    assert_eq!(v.get_i16(1), -128);
}

#[test]
fn vector_test_decay() {
    let mut v = FieldVector::new(64);
    v.set(0, Signal::positive(255));
    v.set(1, Signal::negative(255));

    v.decay(128); // ~50% retention

    // 255 * 128 / 255 = 128
    assert_eq!(v.get(0).magnitude, 128);
    assert_eq!(v.get(1).magnitude, 128);
    // Polarity preserved
    assert_eq!(v.get(0).polarity, 1);
    assert_eq!(v.get(1).polarity, -1);
}

#[test]
fn test_range_energy() {
    let mut v = FieldVector::new(128);
    // Set 32 signals with magnitude 128
    for i in 0..32 {
        v.set(i, Signal::positive(128));
    }

    let energy = v.range_energy(0..32);
    // 32 * 128^2 = 32 * 16384 = 524288
    assert_eq!(energy, 524288);

    // Other range should have zero energy
    assert_eq!(v.range_energy(64..96), 0);
}

#[test]
fn test_add_saturating() {
    let mut v = FieldVector::new(4);
    v.set_i16(0, 200);

    let mut other = FieldVector::new(4);
    other.set_i16(0, 100);

    v.add(&other);
    // 200 + 100 = 300, but Signal max is 255
    assert_eq!(v.get(0).magnitude, 255);
}

#[test]
fn test_add_to_range() {
    let mut v = FieldVector::new(64);
    let signals = vec![Signal::positive(100); 8];
    v.add_to_range(&signals, 0..8);

    assert_eq!(v.get(0).magnitude, 100);
    assert_eq!(v.get(7).magnitude, 100);
    assert_eq!(v.get(8).magnitude, 0);
}

#[test]
fn test_set_range() {
    let mut v = FieldVector::new(64);
    let signals = vec![Signal::negative(50); 4];
    v.set_range(&signals, 10..14);

    assert_eq!(v.get(9).magnitude, 0);
    assert_eq!(v.get(10).magnitude, 50);
    assert_eq!(v.get(10).polarity, -1);
    assert_eq!(v.get(13).magnitude, 50);
    assert_eq!(v.get(14).magnitude, 0);
}

#[test]
fn test_get_range() {
    let mut v = FieldVector::new(64);
    v.set(5, Signal::positive(100));
    v.set(6, Signal::negative(200));

    let range = v.get_range(5..7);
    assert_eq!(range.len(), 2);
    assert_eq!(range[0].magnitude, 100);
    assert_eq!(range[1].magnitude, 200);
}

#[test]
fn test_scale() {
    let mut v = FieldVector::new(4);
    v.set(0, Signal::positive(200));
    v.set(1, Signal::negative(100));

    v.scale(128); // ~50%

    // 200 * 128 / 255 ~ 100
    assert_eq!(v.get(0).magnitude, 100);
    // 100 * 128 / 255 ~ 50
    assert_eq!(v.get(1).magnitude, 50);
}

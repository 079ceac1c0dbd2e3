use storage_layout::slots::{slot_count, snap_to_upper_256};

#[test]
fn snap_rounds_up_to_the_next_boundary() {
    assert_eq!(snap_to_upper_256(0), 0);
    assert_eq!(snap_to_upper_256(1), 256);
    assert_eq!(snap_to_upper_256(256), 256);
    assert_eq!(snap_to_upper_256(257), 512);
}

#[test]
fn slot_count_is_the_ceiling_of_bits_over_256() {
    assert_eq!(slot_count(0), 0);
    assert_eq!(slot_count(384), 2);
    assert_eq!(slot_count(u64::MAX), 1 << 56);
}

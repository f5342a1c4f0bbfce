//! Small value-level checks of the model's helpers.

use nfs4::fs::{space_used_for, u32_to_decimal};

#[test]
fn decimal_rendering() {
    assert_eq!(u32_to_decimal(0), "0");
    assert_eq!(u32_to_decimal(7), "7");
    assert_eq!(u32_to_decimal(10), "10");
    assert_eq!(u32_to_decimal(1000), "1000");
    assert_eq!(u32_to_decimal(4294967295), "4294967295");
}

#[test]
fn space_rounds_up_to_blocks() {
    assert_eq!(space_used_for(0), 0);
    assert_eq!(space_used_for(1), 512);
    assert_eq!(space_used_for(512), 512);
    assert_eq!(space_used_for(513), 1024);
    assert_eq!(space_used_for(1024), 1024);
}

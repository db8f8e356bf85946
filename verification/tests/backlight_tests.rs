use racklight::backlight::{Backlight, Ops};

#[test]
fn new_binds_device_with_zeroed_readings() {
    let bl = Backlight::new("acpi_video0".to_string());
    assert_eq!(bl.device, "acpi_video0");
    assert_eq!(bl.cur_bright, 0);
    assert_eq!(bl.min_bright, 0);
    assert_eq!(bl.max_bright, 0);
}

#[test]
fn update_stores_fresh_readings() {
    let mut bl = Backlight::new("intel_backlight".to_string());
    bl.update(37, 255);
    assert_eq!(bl.cur_bright, 37);
    assert_eq!(bl.max_bright, 255);
    assert_eq!(bl.min_bright, 0);
}

#[test]
fn increase_saturates_at_ceiling() {
    // max_brightness = 100, current = 50, Increase(70) stores 100
    let mut bl = Backlight::new("acpi_video0".to_string());
    bl.update(50, 100);
    let target = bl.set_brightness(Ops::Increase, 70);
    assert_eq!(target, 100);
    assert_eq!(bl.cur_bright, 100);
}

#[test]
fn decrease_saturates_at_floor() {
    // max_brightness = 100, current = 10, Decrease(50) stores 0
    let mut bl = Backlight::new("acpi_video0".to_string());
    bl.update(10, 100);
    let target = bl.set_brightness(Ops::Decrease, 50);
    assert_eq!(target, 0);
    assert_eq!(bl.cur_bright, 0);
}

#[test]
fn assign_negative_clamps_to_floor() {
    // max_brightness = 255, Set(-5) stores 0
    let mut bl = Backlight::new("acpi_video0".to_string());
    bl.update(128, 255);
    let target = bl.set_brightness(Ops::Assign, -5);
    assert_eq!(target, 0);
}

#[test]
fn assign_within_bounds_is_exact() {
    let mut bl = Backlight::new("acpi_video0".to_string());
    bl.update(50, 100);
    let target = bl.set_brightness(Ops::Assign, 70);
    assert_eq!(target, 70);
}

#[test]
fn assign_above_ceiling_clamps() {
    let mut bl = Backlight::new("acpi_video0".to_string());
    bl.update(0, 100);
    let target = bl.set_brightness(Ops::Assign, 150);
    assert_eq!(target, 100);
}

#[test]
fn increase_small_stays_exact() {
    let mut bl = Backlight::new("acpi_video0".to_string());
    bl.update(20, 100);
    let target = bl.set_brightness(Ops::Increase, 30);
    assert_eq!(target, 50);
}

#[test]
fn extreme_decrease_never_wraps() {
    let mut bl = Backlight::new("acpi_video0".to_string());
    bl.update(3, 100);
    let target = bl.set_brightness(Ops::Decrease, i128::MAX);
    assert_eq!(target, 0);
}

#[test]
fn extreme_increase_never_wraps() {
    let mut bl = Backlight::new("acpi_video0".to_string());
    bl.update(5, 100);
    let target = bl.set_brightness(Ops::Increase, i128::MAX);
    assert_eq!(target, 100);
}

#[test]
fn decrease_by_most_negative_value_saturates_at_ceiling() {
    // cur - i128::MIN overflows upward, so the target is the ceiling
    let mut bl = Backlight::new("acpi_video0".to_string());
    bl.update(3, 100);
    let target = bl.set_brightness(Ops::Decrease, i128::MIN);
    assert_eq!(target, 100);
}

#[test]
fn assign_twice_is_idempotent() {
    let mut once = Backlight::new("acpi_video0".to_string());
    once.update(12, 200);
    let first = once.set_brightness(Ops::Assign, 321);

    let mut twice = Backlight::new("acpi_video0".to_string());
    twice.update(12, 200);
    twice.set_brightness(Ops::Assign, 321);
    let second = twice.set_brightness(Ops::Assign, 321);

    assert_eq!(first, 200);
    assert_eq!(second, first);
    assert_eq!(once.cur_bright, twice.cur_bright);
}

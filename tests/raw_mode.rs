use rsrs::terminal::RawMode;

#[test]
fn raw_mode_starts_off_and_leave_is_idempotent() {
    let mut raw = RawMode::new(0);
    assert!(!raw.is_raw_mode());
    assert!(matches!(raw.leave(), Ok(false)));
    assert!(matches!(raw.leave(), Ok(false)));
}

#[test]
fn entering_on_a_bad_descriptor_fails_and_stays_off() {
    let mut raw = RawMode::new(-1);
    assert!(raw.enter().is_err());
    assert!(!raw.is_raw_mode());
    assert!(matches!(raw.leave(), Ok(false)));
}

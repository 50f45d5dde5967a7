use handwave::creator::TemplateApp;

#[test]
fn new_grid_is_all_off() {
    let app = TemplateApp::new();
    for i in 0..64 {
        assert!(!app.led(i));
    }
    assert_eq!(app.value(), 0);
}

#[test]
fn set_led_toggles_single_bits() {
    let mut app = TemplateApp::new();
    app.set_led(0, true);
    app.set_led(63, true);
    assert!(app.led(0));
    assert!(app.led(63));
    assert!(!app.led(32));
    assert_eq!(app.value(), 1 | (1u64 << 63));
    app.set_led(0, false);
    assert_eq!(app.value(), 1u64 << 63);
}

#[test]
fn grid_reflects_value_bits() {
    let mut app = TemplateApp::new();
    let v: u64 = 0b1011;
    app.set_from_value(v);
    assert!(app.led(0));
    assert!(app.led(1));
    assert!(!app.led(2));
    assert!(app.led(3));
    for i in 4..64 {
        assert!(!app.led(i));
    }
}

/// Packing the grid written from a value yields the value back, for any
/// display state.
#[test]
fn grid_value_round_trip() {
    let mut app = TemplateApp::new();
    for v in [0u64, 1, 0b1011, 9189745159477133312, u64::MAX, 0x8000000000000001] {
        app.set_from_value(v);
        assert_eq!(app.value(), v);
    }
}

use handwave::font::{_create_matrix, _create_matrix_from_pattern, u64_to_binary_string};

#[test]
fn create_matrix_reads_binary_msb_first() {
    assert_eq!(_create_matrix("101"), 5);
    assert_eq!(_create_matrix("0"), 0);
    assert_eq!(_create_matrix("1"), 1);
    assert_eq!(_create_matrix(""), 0);
}

#[test]
fn create_matrix_ignores_other_characters() {
    assert_eq!(
        _create_matrix("00000000 00000000 11111111 11111111 00000000 11111111 10101010 01010101"),
        281470698498645
    );
    assert_eq!(_create_matrix("1x0y1"), 5);
}

#[test]
fn create_matrix_drops_bits_past_64() {
    // 65 digits: the leading 1 is shifted out of the 64-bit accumulator.
    let mut s = String::from("1");
    s.push_str(&"0".repeat(64));
    assert_eq!(_create_matrix(&s), 0);
}

#[test]
fn binary_string_renders_msb_first() {
    let s = u64_to_binary_string(5);
    assert_eq!(s.len(), 64);
    assert_eq!(s, format!("{:064b}", 5));
    assert_eq!(u64_to_binary_string(0), "0".repeat(64));
    assert_eq!(u64_to_binary_string(u64::MAX), "1".repeat(64));
}

/// For any 64-bit value, parsing its binary rendering yields the value back.
#[test]
fn binary_round_trip() {
    for v in [
        0u64,
        1,
        5,
        255,
        9189745159477133312,
        7967309272029593600,
        u64::MAX,
        0x0123456789abcdef,
    ] {
        assert_eq!(_create_matrix(&u64_to_binary_string(v)), v);
    }
}

#[test]
fn binary_round_trip_other_direction() {
    // A string of exactly 64 binary digits round-trips through the value too.
    let s: String = (0..64).map(|i| if i % 3 == 0 { '1' } else { '0' }).collect();
    assert_eq!(u64_to_binary_string(_create_matrix(&s)), s);
}

#[test]
fn pattern_repeats_each_line() {
    // "10" repeated fills every row with 10101010.
    assert_eq!(
        _create_matrix_from_pattern(["10", "10", "10", "10", "10", "10", "10", "10"]),
        12297829382473034410
    );
}

#[test]
fn pattern_mixed_lines() {
    assert_eq!(
        _create_matrix_from_pattern(["1", "0", "10", "01", "1111", "0000", "110", "001"]),
        18374873765998811940
    );
}

#[test]
fn pattern_full_width_lines_pass_through() {
    let v = _create_matrix_from_pattern([
        "00000000", "00000000", "11111111", "11111111", "00000000", "11111111", "10101010",
        "01010101",
    ]);
    assert_eq!(v, 281470698498645);
}

use handwave::font::{char_to_columns, glyph_value, pattern_to_columns, string_to_columns};

const SUPPORTED: &[char] = &[
    'A', 'a', 'B', 'b', 'C', 'c', 'D', 'd', 'E', 'e', 'F', 'f', 'G', 'g', 'H', 'h', 'I', 'i', 'J',
    'j', 'K', 'k', 'L', 'l', 'M', 'm', 'N', 'n', 'O', 'o', 'P', 'p', 'Q', 'q', 'R', 'r', 'S', 's',
    'T', 't', 'U', 'u', 'V', 'v', 'W', 'w', 'X', 'x', 'Y', 'y', 'Z', 'z', '0', '1', '2', '3', '4',
    '5', '6', '7', '8', '9', '!', '?', '&', '.', ',', '(', ')', ':', ';', '/', '+', '-', '=', '<',
    '>', '_', '#', '%', '*', '$', '{', '}',
];

/// Every supported character other than space yields a non-empty column list
/// whose first column has at least one bit set (no residual leading blank).
#[test]
fn glyph_round_trip_supported() {
    for &c in SUPPORTED {
        let cols = char_to_columns(c);
        assert!(!cols.is_empty(), "no columns for {c}");
        assert_ne!(cols[0], 0, "leading blank column left for {c}");
        assert!(cols.len() <= 8);
    }
}

#[test]
fn space_is_single_zero_column() {
    assert_eq!(char_to_columns(' '), vec![0]);
    assert_eq!(glyph_value(' '), 0);
}

#[test]
fn unsupported_char_gets_bordered_box() {
    let expected = vec![255, 129, 129, 129, 129, 129, 129, 255];
    assert_eq!(char_to_columns('~'), expected);
    assert_eq!(char_to_columns('^'), char_to_columns('@'));
}

#[test]
fn char_a_trims_leading_blanks() {
    assert_eq!(glyph_value('A'), 9189745159477133312);
    assert_eq!(char_to_columns('A'), vec![127, 136, 136, 136, 127]);
}

#[test]
fn char_b_trims_leading_blanks() {
    assert_eq!(glyph_value('B'), 7967309272029593600);
    assert_eq!(char_to_columns('B'), vec![255, 145, 145, 145, 110]);
}

#[test]
fn char_z_columns() {
    assert_eq!(char_to_columns('Z'), vec![131, 133, 137, 145, 161, 193]);
}

/// Composing "AB" yields A's trimmed columns, exactly one zero spacer, then
/// B's trimmed columns: the stream starts with A's first non-zero column and
/// ends with B's last column.
#[test]
fn string_ab_composition() {
    let cols = string_to_columns("AB");
    let a = char_to_columns('A');
    let b = char_to_columns('B');
    let mut expected = a.clone();
    expected.push(0);
    expected.extend_from_slice(&b);
    assert_eq!(cols, expected);
    assert_eq!(cols, vec![127, 136, 136, 136, 127, 0, 255, 145, 145, 145, 110]);
    // starts with A's first non-zero column
    assert_ne!(cols[0], 0);
    assert_eq!(cols[0], a[0]);
    // ends with B's last column
    assert_eq!(*cols.last().unwrap(), *b.last().unwrap());
    // exactly one zero column, at the A/B boundary
    let zeros: Vec<usize> = (0..cols.len()).filter(|&i| cols[i] == 0).collect();
    assert_eq!(zeros, vec![a.len()]);
}

#[test]
fn string_empty_has_no_columns() {
    assert_eq!(string_to_columns(""), Vec::<u8>::new());
}

#[test]
fn string_single_char_has_no_spacer() {
    assert_eq!(string_to_columns("A"), char_to_columns('A'));
}

#[test]
fn string_with_space_keeps_spacers() {
    // A, spacer, space glyph (one zero column), spacer, B
    let mut expected = char_to_columns('A');
    expected.push(0);
    expected.push(0);
    expected.push(0);
    expected.extend_from_slice(&char_to_columns('B'));
    assert_eq!(string_to_columns("A B"), expected);
}

#[test]
fn string_bab_default_text() {
    let cols = string_to_columns("BAB");
    assert_eq!(
        cols,
        vec![255, 145, 145, 145, 110, 0, 127, 136, 136, 136, 127, 0, 255, 145, 145, 145, 110]
    );
}

/// Composing two authored glyph patterns: trimming each pattern's leading
/// all-zero columns and inserting one zero spacer yields a stream that
/// begins with the first pattern's first non-zero column and ends with the
/// second pattern's last column, with exactly one zero at the boundary.
#[test]
fn pattern_composition_scenario() {
    let glyph_a: u64 = 0b00111110_01111110_11001000_11001000_01111110_00111110_00000000_00000000;
    let glyph_b: u64 = 0b01101100_10010010_10010010_11111110_11111110_10000010_00000000_00000000;
    let a = pattern_to_columns(glyph_a);
    let b = pattern_to_columns(glyph_b);
    assert_eq!(a, vec![0b00111110, 0b01111110, 0b11001000, 0b11001000, 0b01111110, 0b00111110]);
    assert_eq!(b, vec![0b10000010, 0b11111110, 0b11111110, 0b10010010, 0b10010010, 0b01101100]);
    let mut composed = a.clone();
    composed.push(0);
    composed.extend_from_slice(&b);
    assert_eq!(composed[0], a[0]);
    assert_ne!(composed[0], 0);
    assert_eq!(*composed.last().unwrap(), *b.last().unwrap());
    let zeros: Vec<usize> = (0..composed.len()).filter(|&i| composed[i] == 0).collect();
    assert_eq!(zeros, vec![a.len()]);
}

#[test]
fn pattern_to_columns_blank_and_full() {
    assert_eq!(pattern_to_columns(0), vec![0]);
    assert_eq!(pattern_to_columns(u64::MAX), vec![255; 8]);
    // a pattern with only the most significant column lit keeps one column
    assert_eq!(pattern_to_columns(1u64 << 56), vec![1]);
    // a pattern with only the least significant column lit keeps all eight
    assert_eq!(pattern_to_columns(7), vec![7, 0, 0, 0, 0, 0, 0, 0]);
}

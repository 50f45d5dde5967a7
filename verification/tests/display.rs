use handwave::display::{Display, DisplayMode};
use handwave::font::string_to_columns;
use handwave::util::{from_columns, to_columns};

fn scroll_cursor(d: &Display) -> usize {
    match &d.mode {
        DisplayMode::Scroll {
            next_column_index, ..
        } => *next_column_index,
        DisplayMode::Animate { next_frame, .. } => *next_frame,
    }
}

#[test]
fn new_display_is_empty_and_scrolls_default_text() {
    let d = Display::new();
    assert_eq!(d.leds, 0);
    match &d.mode {
        DisplayMode::Scroll {
            next_column_index,
            columns,
        } => {
            assert_eq!(*next_column_index, 0);
            assert_eq!(*columns, string_to_columns("BAB"));
        }
        DisplayMode::Animate { .. } => panic!("default mode must scroll"),
    }
}

/// After `scroll_in(c)`, the new columns 0..=6 equal the old columns 1..=7
/// and the new column 7 equals `c`.
#[test]
fn scroll_shift_invariant() {
    let mut d = Display::new();
    d.leds = 0x0123456789abcdef;
    let before = to_columns(d.leds);
    d.scroll_in(42);
    let after = to_columns(d.leds);
    for k in 0..7 {
        assert_eq!(after[k], before[k + 1]);
    }
    assert_eq!(after[7], 42);
}

/// Applying `scroll_in` eight times with the original eight columns, in their
/// original order, returns the framebuffer to its original state.
#[test]
fn scroll_eight_times_restores_state() {
    let original: u64 = 9189745159477133312;
    let mut d = Display::new();
    d.leds = original;
    let cols = to_columns(original);
    for k in 0..8 {
        d.scroll_in(cols[k]);
    }
    assert_eq!(d.leds, original);
}

#[test]
fn column_pack_unpack_round_trip() {
    let v: u64 = 0x0123456789abcdef;
    assert_eq!(from_columns(to_columns(v)), v);
    let cols = [1u8, 2, 3, 4, 5, 6, 7, 8];
    assert_eq!(to_columns(from_columns(cols)), cols);
    assert_eq!(to_columns(0x0201), [1, 2, 0, 0, 0, 0, 0, 0]);
}

/// After exactly N ticks the cursor returns to 0, and from the eighth tick
/// on the LED state repeats with period N.
#[test]
fn scroll_cursor_wrap_and_periodicity() {
    let mut d = Display::new_scrolling_text("AB").unwrap();
    let n = match &d.mode {
        DisplayMode::Scroll { columns, .. } => columns.len(),
        DisplayMode::Animate { .. } => unreachable!(),
    };
    assert_eq!(n, 11);
    assert_eq!(scroll_cursor(&d), 0);
    for _ in 0..n {
        d.update();
    }
    assert_eq!(scroll_cursor(&d), 0);

    // steady state: leds after tick k equals leds after tick k + n, k >= 8
    let mut e = Display::new_scrolling_text("AB").unwrap();
    let mut states = Vec::new();
    for _ in 0..(8 + 2 * n) {
        e.update();
        states.push((e.leds, scroll_cursor(&e)));
    }
    for k in 8..(8 + n) {
        assert_eq!(states[k - 1], states[k + n - 1]);
    }
}

#[test]
fn scroll_feeds_columns_in_order() {
    let mut d = Display::new_scrolling_text("A").unwrap();
    let cols = string_to_columns("A");
    for (i, &c) in cols.iter().enumerate() {
        d.update();
        assert_eq!(to_columns(d.leds)[7], c);
        assert_eq!(scroll_cursor(&d), (i + 1) % cols.len());
    }
}

#[test]
fn animate_cycles_frames() {
    let frames = vec![11u64, 22, 33];
    let mut d = Display::new_animation(frames.clone()).unwrap();
    for round in 0..3 {
        for (i, &f) in frames.iter().enumerate() {
            d.update();
            assert_eq!(d.leds, f, "round {round} frame {i}");
            assert_eq!(scroll_cursor(&d), (i + 1) % frames.len());
        }
    }
}

#[test]
fn animate_cursor_wrap() {
    let frames = vec![5u64, 6, 7, 8];
    let mut d = Display::new_animation(frames).unwrap();
    for _ in 0..4 {
        d.update();
    }
    assert_eq!(scroll_cursor(&d), 0);
    d.update();
    assert_eq!(d.leds, 5);
}

#[test]
fn single_element_sequences_repeat() {
    let mut d = Display::new_animation(vec![9u64]).unwrap();
    for _ in 0..5 {
        d.update();
        assert_eq!(d.leds, 9);
        assert_eq!(scroll_cursor(&d), 0);
    }
    let mut s = Display::new_scrolling_text(".").unwrap();
    for _ in 0..20 {
        s.update();
    }
    // "." is a single lit column scrolled in every tick: all columns equal it
    let c = string_to_columns(".")[0];
    assert_eq!(to_columns(s.leds), [c; 8]);
}

#[test]
fn empty_sequences_are_rejected_at_construction() {
    assert!(Display::new_scrolling_text("").is_none());
    assert!(Display::new_animation(Vec::new()).is_none());
    assert!(Display::new_scrolling_text("x").is_some());
    assert!(Display::new_animation(vec![0]).is_some());
}

#[test]
fn replace_adopts_frame_verbatim() {
    let mut d = Display::new();
    d.replace(0xdeadbeef);
    assert_eq!(d.leds, 0xdeadbeef);
}

#[test]
fn logical_grid_projects_bits() {
    let mut d = Display::new();
    // column 0 = 0b0000_0001 (row 0 on), column 7 = 0b1000_0000 (row 7 on)
    d.leds = from_columns([1, 0, 0, 0, 0, 0, 0, 0x80]);
    let grid = d.to_logical_grid();
    assert_eq!(grid.len(), 64);
    for e in 0..64 {
        let (row, col, on) = grid[e];
        assert_eq!(row as usize, e % 8);
        assert_eq!(col as usize, e / 8);
        let expected = (row == 0 && col == 0) || (row == 7 && col == 7);
        assert_eq!(on, expected, "row {row} col {col}");
    }
}

use std::collections::HashSet;

use handwave::coord::physical;
use handwave::display::Display;
use handwave::util::from_columns;

/// The row-rotation wiring quirk: logical (7,0) sits at physical (0,7) while
/// logical (0,0) sits at physical (0,6).
#[test]
fn coordinate_map_row_rotation_quirk() {
    let p = physical(7, 0);
    assert_eq!((p.x, p.y), (0, 7));
    let q = physical(0, 0);
    assert_eq!((q.x, q.y), (0, 6));
}

#[test]
fn coordinate_map_uses_even_columns_only() {
    for row in 0..8 {
        for col in 0..8 {
            let p = physical(row, col);
            assert_eq!(p.x % 2, 0);
            assert_eq!(p.x, 2 * col);
            assert!(p.y < 8);
        }
    }
}

#[test]
fn coordinate_map_is_a_bijection() {
    let mut seen = HashSet::new();
    for row in 0..8 {
        for col in 0..8 {
            let p = physical(row, col);
            assert!(seen.insert((p.x, p.y)), "duplicate address {:?}", (p.x, p.y));
        }
    }
    assert_eq!(seen.len(), 64);
}

/// The renderer yields exactly 64 entries whose physical addresses are
/// pairwise distinct and exactly the coordinate map's image, whatever the
/// framebuffer holds.
#[test]
fn render_covers_every_led_exactly_once() {
    for leds in [0u64, u64::MAX, 9189745159477133312, 0x0123456789abcdef] {
        let mut d = Display::new();
        d.leds = leds;
        let entries = d.to_leds();
        assert_eq!(entries.len(), 64);
        let addresses: HashSet<(u8, u8)> = entries.iter().map(|(p, _)| (p.x, p.y)).collect();
        assert_eq!(addresses.len(), 64, "addresses repeat for {leds}");
        let image: HashSet<(u8, u8)> = (0..8)
            .flat_map(|row| {
                (0..8).map(move |col| {
                    let p = physical(row, col);
                    (p.x, p.y)
                })
            })
            .collect();
        assert_eq!(addresses, image);
    }
}

#[test]
fn render_reports_lit_leds() {
    let mut d = Display::new();
    // only column 0, row 0 is lit; it lives at physical (0, 6)
    d.leds = from_columns([1, 0, 0, 0, 0, 0, 0, 0]);
    let entries = d.to_leds();
    for (p, on) in entries {
        assert_eq!(on, (p.x, p.y) == (0, 6), "at {:?}", (p.x, p.y));
    }
}

#[test]
fn render_all_on_and_all_off() {
    let mut d = Display::new();
    d.leds = 0;
    assert!(d.to_leds().iter().all(|&(_, on)| !on));
    d.leds = u64::MAX;
    assert!(d.to_leds().iter().all(|&(_, on)| on));
}

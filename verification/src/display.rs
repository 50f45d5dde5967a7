//! The framebuffer and its scroll/animate state machine, and the renderer
//! that turns the framebuffer into physical LED updates.
//!
//! The display holds the on/off state of the 64 LEDs as one packed `u64`
//! (eight columns, column 0 in the least-significant byte). Scroll mode feeds
//! one new column per tick for marquee motion; Animate mode replaces the
//! whole state per tick with the next authored frame.

use vstd::prelude::*;
use vstd::arithmetic::div_mod::{lemma_fundamental_div_mod, lemma_mod_bound, lemma_mod_multiples_vanish, lemma_small_mod};

use crate::coord::{physical, spec_physical, PhysCoord};
use crate::font::{spec_string_columns, string_to_columns};
use crate::util::{col_of, cols_of, from_columns, lemma_eq_by_cols, to_columns};

verus! {

/// An 8-bit vertical slice of the display: bit `i` is the LED at row `i`.
pub type Column = u8;

/// Defines display behavior and state.
pub enum DisplayMode {
    /// Marquee-style scrolling of the given columns.
    Scroll {
        /// Which column to push onto the display next.
        next_column_index: usize,
        /// The entire list of columns to scroll through; only a window of
        /// eight is visible at a time.
        columns: Vec<Column>,
    },
    /// Cycles through a list of 64-bit values, treating them as the frames
    /// of an animation.
    Animate { frames: Vec<u64>, next_frame: usize },
}

impl DisplayMode {
    /// A mode is valid only with a non-empty sequence and a cursor inside
    /// it; construction rejects empty sequences and every tick keeps the
    /// cursor in range.
    pub open spec fn wf(&self) -> bool {
        match *self {
            DisplayMode::Scroll { next_column_index, columns } => columns@.len() > 0
                && next_column_index < columns@.len(),
            DisplayMode::Animate { frames, next_frame } => frames@.len() > 0 && next_frame
                < frames@.len(),
        }
    }

    /// The length of the column or frame sequence the mode cycles over.
    pub open spec fn sequence_len(&self) -> int {
        match *self {
            DisplayMode::Scroll { columns, .. } => columns@.len() as int,
            DisplayMode::Animate { frames, .. } => frames@.len() as int,
        }
    }

    /// The cursor's position in the sequence.
    pub open spec fn cursor(&self) -> int {
        match *self {
            DisplayMode::Scroll { next_column_index, .. } => next_column_index as int,
            DisplayMode::Animate { next_frame, .. } => next_frame as int,
        }
    }
}

/// Display state: the 64 packed LED bits and the playback mode.
pub struct Display {
    /// The on/off state of the 64 LEDs on the display, packed as eight
    /// columns of a 64-bit value.
    pub leds: u64,
    pub mode: DisplayMode,
}

/// The state after one scroll step: column 0 is discarded, columns 1..=7
/// move down one slot, and `c` becomes the new column 7.
pub open spec fn scrolled(l: u64, c: Column) -> u64 {
    (l >> 8u64) | ((c as u64) << 56u64)
}

/// How one scroll step rearranges the columns.
pub proof fn lemma_scrolled_cols(l: u64, c: Column)
    ensures
        forall|k: int| 0 <= k < 7 ==> col_of(scrolled(l, c), k) == col_of(l, k + 1),
        col_of(scrolled(l, c), 7) == c,
{
    let s = scrolled(l, c);
    assert(col_of(s, 0) == col_of(l, 1) && col_of(s, 1) == col_of(l, 2) && col_of(s, 2) == col_of(
        l,
        3,
    ) && col_of(s, 3) == col_of(l, 4) && col_of(s, 4) == col_of(l, 5) && col_of(s, 5) == col_of(
        l,
        6,
    ) && col_of(s, 6) == col_of(l, 7) && col_of(s, 7) == c) by (bit_vector)
        requires
            s == (l >> 8u64) | ((c as u64) << 56u64),
    ;
}

/// The per-tick transition of the whole system: feed the cursor's column
/// (Scroll) or frame (Animate) into the framebuffer, then advance the cursor
/// circularly.
pub open spec fn spec_update(d: Display) -> Display {
    match d.mode {
        DisplayMode::Scroll { next_column_index, columns } => Display {
            leds: scrolled(d.leds, columns@[next_column_index as int]),
            mode: DisplayMode::Scroll {
                next_column_index: (((next_column_index + 1) as int) % (
                columns@.len() as int)) as usize,
                columns,
            },
        },
        DisplayMode::Animate { frames, next_frame } => Display {
            leds: frames@[next_frame as int],
            mode: DisplayMode::Animate {
                frames,
                next_frame: (((next_frame + 1) as int) % (frames@.len() as int)) as usize,
            },
        },
    }
}

/// The on/off state of the LED at logical (row, col): bit `row` of column
/// `col`.
pub open spec fn led_on(v: u64, row: int, col: int) -> bool
    recommends
        0 <= row < 8 && 0 <= col < 8,
{
    (col_of(v, col) >> (row as u8)) & 1 == 1
}

/// The logical grid flattened column by column: entry `8 * col + row` is
/// (row, col, on/off).
pub open spec fn spec_logical_grid(v: u64) -> Seq<(u8, u8, bool)> {
    Seq::new(64, |e: int| (((e % 8) as u8, (e / 8) as u8, led_on(v, e % 8, e / 8))))
}

/// The rendered frame: entry `8 * col + row` pairs the physical address of
/// logical cell (row, col) with its on/off state.
pub open spec fn spec_to_leds(v: u64) -> Seq<(PhysCoord, bool)> {
    Seq::new(64, |e: int| (spec_physical(e % 8, e / 8), led_on(v, e % 8, e / 8)))
}

impl Display {
    /// Create a new, empty display scrolling the default text.
    pub fn new() -> (r: Self)
        ensures
            r.leds == 0,
            r.mode matches DisplayMode::Scroll { next_column_index, columns }
                && next_column_index == 0 && columns@ =~= spec_string_columns("BAB"@),
            r.mode.wf(),
    {
        proof {
            reveal_strlit("BAB");
        }
        let columns = string_to_columns("BAB");
        Self { mode: DisplayMode::Scroll { next_column_index: 0, columns }, leds: 0 }
    }

    /// Build a display that scrolls the given text, rejected when the text
    /// is empty: a scroll sequence may not be empty.
    pub fn new_scrolling_text(text: &str) -> (r: Option<Self>)
        ensures
            r is Some <==> text@.len() > 0,
            r matches Some(d) ==> {
                &&& d.leds == 0
                &&& d.mode matches DisplayMode::Scroll { next_column_index, columns }
                    && next_column_index == 0 && columns@ =~= spec_string_columns(text@)
                &&& d.mode.wf()
            },
    {
        let columns = string_to_columns(text);
        if columns.is_empty() {
            None
        } else {
            Some(Self { mode: DisplayMode::Scroll { next_column_index: 0, columns }, leds: 0 })
        }
    }

    /// Build a display that cycles the given animation frames, rejected when
    /// the frame list is empty.
    pub fn new_animation(frames: Vec<u64>) -> (r: Option<Self>)
        ensures
            r is Some <==> frames@.len() > 0,
            r matches Some(d) ==> {
                &&& d.leds == 0
                &&& d.mode matches DisplayMode::Animate { frames: f, next_frame } && next_frame
                    == 0 && f@ =~= frames@
                &&& d.mode.wf()
            },
    {
        if frames.is_empty() {
            None
        } else {
            Some(Self { mode: DisplayMode::Animate { frames, next_frame: 0 }, leds: 0 })
        }
    }

    /// Shift the stored columns left by one — column 0 is discarded, columns
    /// 1..=7 become 0..=6 — and insert `column` as the new column 7: one
    /// step of marquee motion.
    pub fn scroll_in(&mut self, column: Column)
        ensures
            final(self).leds == scrolled(old(self).leds, column),
            cols_of(final(self).leds) =~= cols_of(old(self).leds).subrange(1, 8).push(column),
            final(self).mode == old(self).mode,
    {
        let current_columns = to_columns(self.leds);
        let shifted_columns = [
            current_columns[1],
            current_columns[2],
            current_columns[3],
            current_columns[4],
            current_columns[5],
            current_columns[6],
            current_columns[7],
            column,
        ];
        self.leds = from_columns(shifted_columns);
        proof {
            lemma_scrolled_cols(old(self).leds, column);
            assert forall|k: int| 0 <= k < 8 implies col_of(self.leds, k) == col_of(
                scrolled(old(self).leds, column),
                k,
            ) by {
                assert(cols_of(self.leds)[k] == shifted_columns@[k]);
            }
            lemma_eq_by_cols(self.leds, scrolled(old(self).leds, column));
        }
    }

    /// Discard the current state entirely and adopt `frame` verbatim; used
    /// by Animate mode, where each frame is a fully authored image.
    pub fn replace(&mut self, frame: u64)
        ensures
            final(self).leds == frame,
            final(self).mode == old(self).mode,
    {
        self.leds = frame;
    }

    /// Update the LED state for one tick, depending on which `DisplayMode`
    /// is used, and advance that mode's cursor circularly.
    pub fn update(&mut self)
        requires
            old(self).mode.wf(),
        ensures
            *final(self) == spec_update(*old(self)),
            final(self).mode.wf(),
    {
        // Take the mode out to work on it by value; the placeholder is
        // swapped away again before the function returns.
        let mut mode = DisplayMode::Animate { frames: Vec::new(), next_frame: 0 };
        core::mem::swap(&mut self.mode, &mut mode);
        match mode {
            DisplayMode::Scroll { next_column_index, columns } => {
                let next_column = columns[next_column_index];
                self.scroll_in(next_column);
                let n = columns.len();
                let advanced = (next_column_index + 1) % n;
                self.mode = DisplayMode::Scroll { next_column_index: advanced, columns };
            },
            DisplayMode::Animate { frames, next_frame } => {
                let frame = frames[next_frame];
                self.replace(frame);
                let n = frames.len();
                let advanced = (next_frame + 1) % n;
                self.mode = DisplayMode::Animate { frames, next_frame: advanced };
            },
        }
    }

    /// Project the current state onto the logical grid: one (row, col,
    /// on/off) triple per LED, with no side effects.
    pub fn to_logical_grid(&self) -> (r: Vec<(u8, u8, bool)>)
        ensures
            r@ =~= spec_logical_grid(self.leds),
            r@.len() == 64,
    {
        let columns = to_columns(self.leds);
        let mut r: Vec<(u8, u8, bool)> = Vec::new();
        let mut col: usize = 0;
        while col < 8
            invariant
                col <= 8,
                columns@ =~= cols_of(self.leds),
                r@.len() == 8 * col,
                r@ =~= spec_logical_grid(self.leds).subrange(0, 8 * col),
            decreases 8 - col,
        {
            let column_value = columns[col];
            let mut row: usize = 0;
            while row < 8
                invariant
                    col < 8,
                    row <= 8,
                    columns@ =~= cols_of(self.leds),
                    column_value == col_of(self.leds, col as int),
                    r@.len() == 8 * col + row,
                    r@ =~= spec_logical_grid(self.leds).subrange(0, 8 * col + row),
                decreases 8 - row,
            {
                let state = (column_value >> (row as u8)) & 1 == 1;
                r.push((row as u8, col as u8, state));
                proof {
                    let e = 8 * (col as int) + row;
                    assert(e % 8 == row && e / 8 == col);
                    assert(spec_logical_grid(self.leds).subrange(0, e + 1) =~= spec_logical_grid(
                        self.leds,
                    ).subrange(0, e).push(spec_logical_grid(self.leds)[e]));
                }
                row += 1;
            }
            col += 1;
        }
        proof {
            assert(spec_logical_grid(self.leds).subrange(0, 64) =~= spec_logical_grid(self.leds));
        }
        r
    }

    /// Convert the current display into the list of LED updates the display
    /// controller consumes: each logical cell's physical address, paired with
    /// its on/off state.
    pub fn to_leds(&self) -> (r: Vec<(PhysCoord, bool)>)
        ensures
            r@ =~= spec_to_leds(self.leds),
            r@.len() == 64,
    {
        let grid = self.to_logical_grid();
        let mut r: Vec<(PhysCoord, bool)> = Vec::new();
        let mut e: usize = 0;
        while e < 64
            invariant
                e <= 64,
                grid@ =~= spec_logical_grid(self.leds),
                grid@.len() == 64,
                r@.len() == e,
                r@ =~= spec_to_leds(self.leds).subrange(0, e as int),
            decreases 64 - e,
        {
            let cell = grid[e];
            let led_location = physical(cell.0, cell.1);
            r.push((led_location, cell.2));
            proof {
                assert(spec_to_leds(self.leds).subrange(0, e + 1) =~= spec_to_leds(
                    self.leds,
                ).subrange(0, e as int).push(spec_to_leds(self.leds)[e as int]));
            }
            e += 1;
        }
        proof {
            assert(spec_to_leds(self.leds).subrange(0, 64) =~= spec_to_leds(self.leds));
        }
        r
    }
}

/// The state after scrolling in each of `cs`'s columns, in order.
pub open spec fn scroll_all(l: u64, cs: Seq<Column>) -> u64
    decreases cs.len(),
{
    if cs.len() == 0 {
        l
    } else {
        scroll_all(scrolled(l, cs[0]), cs.drop_first())
    }
}

proof fn lemma_scroll_fill_rec(l: u64, cs: Seq<Column>)
    requires
        cs.len() <= 8,
    ensures
        cols_of(scroll_all(l, cs)) =~= cols_of(l).skip(cs.len() as int) + cs,
    decreases cs.len(),
{
    if cs.len() == 0 {
        assert(cols_of(l).skip(0) + cs =~= cols_of(l));
    } else {
        let c = cs[0];
        let rest = cs.drop_first();
        let l1 = scrolled(l, c);
        lemma_scrolled_cols(l, c);
        lemma_scroll_fill_rec(l1, rest);
        let m = rest.len() as int;
        assert forall|k: int| 0 <= k < 8 implies (cols_of(l1).skip(m) + rest)[k] == (cols_of(
            l,
        ).skip(m + 1) + cs)[k] by {
            if k < 7 - m {
                assert((cols_of(l1).skip(m) + rest)[k] == col_of(l1, k + m));
                assert(col_of(l1, k + m) == col_of(l, k + m + 1));
            } else if k == 7 - m {
                assert((cols_of(l1).skip(m) + rest)[k] == col_of(l1, 7));
                assert(col_of(l1, 7) == c);
            } else {
                assert((cols_of(l1).skip(m) + rest)[k] == rest[k - (8 - m)]);
                assert(rest[k - (8 - m)] == cs[k - (7 - m)]);
            }
        }
        assert(cols_of(l1).skip(m) + rest =~= cols_of(l).skip(m + 1) + cs);
    }
}

/// After eight scroll steps the framebuffer holds exactly the eight columns
/// fed in, in order, whatever it held before.
pub proof fn lemma_scroll_fill(l: u64, cs: Seq<Column>)
    requires
        cs.len() == 8,
    ensures
        cols_of(scroll_all(l, cs)) =~= cs,
{
    lemma_scroll_fill_rec(l, cs);
    assert(cols_of(l).skip(8) + cs =~= cs);
}

/// Scrolling a state's own eight columns back in, in their original order,
/// returns the framebuffer to exactly its original state.
pub proof fn lemma_scroll_identity(l: u64)
    ensures
        scroll_all(l, cols_of(l)) == l,
{
    lemma_scroll_fill(l, cols_of(l));
    assert forall|k: int| 0 <= k < 8 implies col_of(scroll_all(l, cols_of(l)), k) == col_of(
        l,
        k,
    ) by {
        assert(cols_of(scroll_all(l, cols_of(l)))[k] == cols_of(l)[k]);
    }
    lemma_eq_by_cols(scroll_all(l, cols_of(l)), l);
}

/// The display after `n` playback ticks.
pub open spec fn advance_n(d: Display, n: nat) -> Display
    decreases n,
{
    if n == 0 {
        d
    } else {
        spec_update(advance_n(d, (n - 1) as nat))
    }
}

/// Whether two modes are the same variant cycling over the same sequence.
pub open spec fn same_mode_sequence(m1: DisplayMode, m2: DisplayMode) -> bool {
    match (m1, m2) {
        (
            DisplayMode::Scroll { columns: a, .. },
            DisplayMode::Scroll { columns: b, .. },
        ) => a == b,
        (
            DisplayMode::Animate { frames: a, .. },
            DisplayMode::Animate { frames: b, .. },
        ) => a == b,
        _ => false,
    }
}

/// Ticking preserves the mode's validity and its sequence, and each tick
/// moves the cursor forward by one, modulo the sequence length.
pub proof fn lemma_advance_shape(d: Display, n: nat)
    requires
        d.mode.wf(),
    ensures
        advance_n(d, n).mode.wf(),
        same_mode_sequence(advance_n(d, n).mode, d.mode),
        advance_n(d, n).mode.sequence_len() == d.mode.sequence_len(),
        advance_n(d, n).mode.cursor() == (d.mode.cursor() + n) % d.mode.sequence_len(),
    decreases n,
{
    let len = d.mode.sequence_len();
    if n == 0 {
        lemma_small_mod(d.mode.cursor() as nat, len as nat);
    } else {
        lemma_advance_shape(d, (n - 1) as nat);
        let p = advance_n(d, (n - 1) as nat);
        let a = d.mode.cursor() + n - 1;
        lemma_mod_bound(a, len);
        lemma_fundamental_div_mod(a, len);
        lemma_mod_multiples_vanish(a / len, (a % len) + 1, len);
        lemma_mod_bound(a + 1, len);
        assert(advance_n(d, n) == spec_update(p));
        assert(p.mode.cursor() == a % len);
        assert(((a % len) + 1) % len == (a + 1) % len);
        match p.mode {
            DisplayMode::Scroll { next_column_index, columns } => {
                assert(columns.len() == columns@.len());
                assert(p.mode.cursor() == next_column_index as int);
                assert(spec_update(p).mode.cursor() == ((next_column_index + 1) as int) % (
                columns@.len() as int));
            },
            DisplayMode::Animate { frames, next_frame } => {
                assert(frames.len() == frames@.len());
                assert(p.mode.cursor() == next_frame as int);
                assert(spec_update(p).mode.cursor() == ((next_frame + 1) as int) % (
                frames@.len() as int));
            },
        }
    }
}

proof fn lemma_advance_add(d: Display, a: nat, b: nat)
    ensures
        advance_n(d, a + b) == advance_n(advance_n(d, a), b),
    decreases b,
{
    if b > 0 {
        lemma_advance_add(d, a, (b - 1) as nat);
    }
}

proof fn lemma_scroll_converge_rec(d1: Display, d2: Display, m: nat)
    requires
        m <= 8,
        d1.mode == d2.mode,
        d1.mode.wf(),
        d1.mode is Scroll,
    ensures
        advance_n(d1, m).mode == advance_n(d2, m).mode,
        advance_n(d1, m).mode.wf(),
        advance_n(d1, m).mode is Scroll,
        forall|j: int|
            8 - m <= j < 8 ==> col_of(advance_n(d1, m).leds, j) == col_of(
                advance_n(d2, m).leds,
                j,
            ),
    decreases m,
{
    if m > 0 {
        lemma_scroll_converge_rec(d1, d2, (m - 1) as nat);
        let p1 = advance_n(d1, (m - 1) as nat);
        let p2 = advance_n(d2, (m - 1) as nat);
        assert(advance_n(d1, m) == spec_update(p1));
        assert(advance_n(d2, m) == spec_update(p2));
        match p1.mode {
            DisplayMode::Scroll { next_column_index, columns } => {
                let c = columns@[next_column_index as int];
                lemma_scrolled_cols(p1.leds, c);
                lemma_scrolled_cols(p2.leds, c);
                assert forall|j: int|
                    8 - m <= j < 8 implies col_of(advance_n(d1, m).leds, j) == col_of(
                    advance_n(d2, m).leds,
                    j,
                ) by {
                    if j < 7 {
                        assert(col_of(spec_update(p1).leds, j) == col_of(p1.leds, j + 1));
                        assert(col_of(spec_update(p2).leds, j) == col_of(p2.leds, j + 1));
                    } else {
                        assert(col_of(spec_update(p1).leds, 7) == c);
                        assert(col_of(spec_update(p2).leds, 7) == c);
                    }
                }
            },
            DisplayMode::Animate { .. } => {
                assert(false);
            },
        }
    }
}

/// Steady-state periodicity of Scroll playback: once the original contents
/// have been scrolled out (eight ticks or more), the display repeats itself
/// exactly every `sequence_len` ticks — same LED state, same cursor.
pub proof fn lemma_scroll_periodic(d: Display, k: nat, n: nat)
    requires
        d.mode.wf(),
        d.mode is Scroll,
        n == d.mode.sequence_len(),
        k >= 8,
    ensures
        advance_n(d, k + n) == advance_n(d, k),
{
    let a = (k - 8) as nat;
    lemma_advance_add(d, a, 8);
    lemma_advance_add(d, a + n, 8);
    let e1 = advance_n(d, a);
    let e2 = advance_n(d, a + n);
    lemma_advance_shape(d, a);
    lemma_advance_shape(d, a + n);
    lemma_mod_multiples_vanish(1, d.mode.cursor() + a, n as int);
    assert(e1.mode.cursor() == e2.mode.cursor());
    assert(e1.mode == e2.mode) by {
        match (e1.mode, e2.mode) {
            (
                DisplayMode::Scroll { next_column_index: u1, columns: v1 },
                DisplayMode::Scroll { next_column_index: u2, columns: v2 },
            ) => {
                assert(u1 == u2 && v1 == v2);
            },
            _ => {
                assert(false);
            },
        }
    }
    lemma_scroll_converge_rec(e1, e2, 8);
    assert forall|j: int| 0 <= j < 8 implies col_of(advance_n(e1, 8).leds, j) == col_of(
        advance_n(e2, 8).leds,
        j,
    ) by {}
    lemma_eq_by_cols(advance_n(e1, 8).leds, advance_n(e2, 8).leds);
    assert(advance_n(d, k) == advance_n(e1, 8));
    assert(advance_n(d, k + n) == advance_n(e2, 8));
}

/// Steady-state periodicity of Animate playback: from the first tick on, the
/// display repeats itself exactly every `sequence_len` ticks.
pub proof fn lemma_animate_periodic(d: Display, k: nat, n: nat)
    requires
        d.mode.wf(),
        d.mode is Animate,
        n == d.mode.sequence_len(),
        k >= 1,
    ensures
        advance_n(d, k + n) == advance_n(d, k),
{
    let p1 = advance_n(d, (k - 1) as nat);
    let p2 = advance_n(d, (k - 1 + n) as nat);
    lemma_advance_shape(d, (k - 1) as nat);
    lemma_advance_shape(d, (k - 1 + n) as nat);
    lemma_mod_multiples_vanish(1, d.mode.cursor() + k - 1, n as int);
    assert(p1.mode.cursor() == p2.mode.cursor());
    assert(p1.mode == p2.mode) by {
        match (p1.mode, p2.mode) {
            (
                DisplayMode::Animate { frames: f1, next_frame: u1 },
                DisplayMode::Animate { frames: f2, next_frame: u2 },
            ) => {
                assert(u1 == u2 && f1 == f2);
            },
            _ => {
                assert(false);
            },
        }
    }
    assert(advance_n(d, k) == spec_update(p1));
    assert(advance_n(d, k + n) == spec_update(p2));
    assert(spec_update(p1) == spec_update(p2));
}

/// After exactly `sequence_len` ticks from cursor 0, the cursor has wrapped
/// back around to 0.
pub proof fn lemma_cursor_wrap(d: Display, n: nat)
    requires
        d.mode.wf(),
        d.mode.cursor() == 0,
        n == d.mode.sequence_len(),
    ensures
        advance_n(d, n).mode.cursor() == 0,
{
    lemma_advance_shape(d, n);
    lemma_mod_multiples_vanish(1, 0, n as int);
    lemma_small_mod(0, n as nat);
}

/// Whether some rendered entry addresses the physical LED of logical cell
/// (row, col).
pub open spec fn covers(v: u64, row: int, col: int) -> bool {
    exists|e: int| 0 <= e < 64 && (#[trigger] spec_to_leds(v)[e]).0 == spec_physical(row, col)
}

/// The renderer covers the matrix exactly, for any display state: 64
/// entries, pairwise-distinct physical addresses, and every address in the
/// coordinate map's image appears.
pub proof fn lemma_render_covers(v: u64)
    ensures
        spec_to_leds(v).len() == 64,
        forall|e1: int, e2: int|
            0 <= e1 < 64 && 0 <= e2 < 64 && e1 != e2 ==> (#[trigger] spec_to_leds(v)[e1]).0 != (
            #[trigger] spec_to_leds(v)[e2]).0,
        forall|row: int, col: int|
            0 <= row < 8 && 0 <= col < 8 ==> #[trigger] covers(v, row, col),
{
    assert forall|e1: int, e2: int|
        0 <= e1 < 64 && 0 <= e2 < 64 && e1 != e2 implies (spec_to_leds(v)[e1]).0 != (spec_to_leds(
        v,
    )[e2]).0 by {
        assert(e1 == 8 * (e1 / 8) + e1 % 8);
        assert(e2 == 8 * (e2 / 8) + e2 % 8);
        crate::coord::lemma_physical_injective(e1 % 8, e1 / 8, e2 % 8, e2 / 8);
    }
    assert forall|row: int, col: int| 0 <= row < 8 && 0 <= col < 8 implies #[trigger] covers(
        v,
        row,
        col,
    ) by {
        let e = 8 * col + row;
        assert(e % 8 == row && e / 8 == col);
        assert(0 <= e < 64 && (spec_to_leds(v)[e]).0 == spec_physical(row, col));
    }
}

} // verus!

//! The LED-grid model behind the glyph authoring tool.
//!
//! The tool edits the 64 LEDs of one display state as individual checkboxes
//! and keeps them in sync with a numeric rendering of the same state. The
//! grid-to-number and number-to-grid conversions are the logic here; the
//! widgets and the text field live with the GUI.

use vstd::prelude::*;

verus! {

/// Whether bit `i` of a display state is set.
pub open spec fn bit_of(v: u64, i: int) -> bool {
    v & (1u64 << (i as u64)) != 0
}

/// A display state as its 64 individual LED bits, bit 0 first.
pub open spec fn bits_of(v: u64) -> Seq<bool> {
    Seq::new(64, |i: int| bit_of(v, i))
}

proof fn lemma_zero_bits()
    by (bit_vector)
    ensures
        forall|j: u64| #[trigger] (0u64 & (1u64 << j)) == 0,
{
}

proof fn lemma_or_bit(x: u64, i: u64)
    by (bit_vector)
    requires
        i < 64,
    ensures
        (x | (1u64 << i)) & (1u64 << i) != 0,
        forall|j: u64|
            j < 64 && j != i ==> #[trigger] ((x | (1u64 << i)) & (1u64 << j)) == x & (1u64 << j),
{
}

/// State of the LED grid in the authoring tool.
pub struct TemplateApp {
    /// State of the 64 LEDs, one flag per LED, bit 0 of the display state
    /// first.
    leds: Vec<bool>,
}

impl TemplateApp {
    /// The grid always holds exactly one flag per LED of the 8x8 matrix.
    pub closed spec fn wf(&self) -> bool {
        self.leds@.len() == 64
    }

    /// The LED flags, in bit order.
    pub closed spec fn view(&self) -> Seq<bool> {
        self.leds@
    }

    /// A grid with every LED off.
    pub fn new() -> (r: Self)
        ensures
            r.wf(),
            r@ =~= Seq::new(64, |i: int| false),
    {
        let mut leds: Vec<bool> = Vec::new();
        let mut i: usize = 0;
        while i < 64
            invariant
                i <= 64,
                leds@ =~= Seq::new(i as nat, |k: int| false),
            decreases 64 - i,
        {
            leds.push(false);
            proof {
                assert(leds@ =~= Seq::new((i + 1) as nat, |k: int| false));
            }
            i += 1;
        }
        TemplateApp { leds }
    }

    /// Whether the LED at bit position `i` is on.
    pub fn led(&self, i: usize) -> (r: bool)
        requires
            self.wf(),
            i < 64,
        ensures
            r == self@[i as int],
    {
        self.leds[i]
    }

    /// Turn the LED at bit position `i` on or off.
    pub fn set_led(&mut self, i: usize, on: bool)
        requires
            old(self).wf(),
            i < 64,
        ensures
            final(self).wf(),
            final(self)@ =~= old(self)@.update(i as int, on),
    {
        self.leds.set(i, on);
    }

    /// Set every LED from the bits of a display state: LED `i` goes on
    /// exactly when bit `i` of `value` is set.
    pub fn set_from_value(&mut self, value: u64)
        requires
            old(self).wf(),
        ensures
            final(self).wf(),
            final(self)@ =~= bits_of(value),
    {
        let mut i: usize = 0;
        while i < 64
            invariant
                i <= 64,
                self.leds@.len() == 64,
                forall|k: int| 0 <= k < i ==> self.leds@[k] == bits_of(value)[k],
            decreases 64 - i,
        {
            let led_on = (value & (1u64 << (i as u64))) != 0;
            self.leds.set(i, led_on);
            i += 1;
        }
    }

    /// Pack the LED flags back into a display state: bit `i` of the result
    /// is set exactly when LED `i` is on.
    pub fn value(&self) -> (r: u64)
        requires
            self.wf(),
        ensures
            bits_of(r) =~= self@,
    {
        let mut ret: u64 = 0;
        let mut i: usize = 0;
        proof {
            lemma_zero_bits();
            assert forall|k: int| 0 <= k < 64 implies !bit_of(ret, k) by {
                assert(0u64 & (1u64 << (k as u64)) == 0);
            }
        }
        while i < 64
            invariant
                i <= 64,
                self.leds@.len() == 64,
                forall|k: int| 0 <= k < i ==> bit_of(ret, k) == self.leds@[k],
                forall|k: int| i <= k < 64 ==> !bit_of(ret, k),
            decreases 64 - i,
        {
            let ghost prev = ret;
            if self.leds[i] {
                proof {
                    lemma_or_bit(ret, i as u64);
                }
                ret = ret | (1u64 << (i as u64));
                proof {
                    assert forall|k: int| 0 <= k < 64 && k != i implies bit_of(ret, k) == bit_of(
                        prev,
                        k,
                    ) by {
                        assert((prev | (1u64 << (i as u64))) & (1u64 << (k as u64)) == prev & (1u64
                            << (k as u64)));
                    }
                    assert(bit_of(ret, i as int));
                }
            }
            i += 1;
        }
        ret
    }
}

/// Two display states with the same 64 LED bits are the same state; together
/// with the contracts of `set_from_value` and `value`, the authoring grid
/// round-trips any display state exactly.
pub proof fn lemma_bits_injective(a: u64, b: u64)
    requires
        bits_of(a) =~= bits_of(b),
    ensures
        a == b,
{
    assert forall|k: int| 0 <= k < 8 implies crate::util::col_of(a, k) == crate::util::col_of(
        b,
        k,
    ) by {
        let k64 = k as u64;
        assert(bits_of(a)[8 * k + 0] == bits_of(b)[8 * k + 0]);
        assert(bits_of(a)[8 * k + 1] == bits_of(b)[8 * k + 1]);
        assert(bits_of(a)[8 * k + 2] == bits_of(b)[8 * k + 2]);
        assert(bits_of(a)[8 * k + 3] == bits_of(b)[8 * k + 3]);
        assert(bits_of(a)[8 * k + 4] == bits_of(b)[8 * k + 4]);
        assert(bits_of(a)[8 * k + 5] == bits_of(b)[8 * k + 5]);
        assert(bits_of(a)[8 * k + 6] == bits_of(b)[8 * k + 6]);
        assert(bits_of(a)[8 * k + 7] == bits_of(b)[8 * k + 7]);
        assert((8 * k + 0) as u64 == 8 * k64 + 0);
        assert((8 * k + 1) as u64 == 8 * k64 + 1);
        assert((8 * k + 2) as u64 == 8 * k64 + 2);
        assert((8 * k + 3) as u64 == 8 * k64 + 3);
        assert((8 * k + 4) as u64 == 8 * k64 + 4);
        assert((8 * k + 5) as u64 == 8 * k64 + 5);
        assert((8 * k + 6) as u64 == 8 * k64 + 6);
        assert((8 * k + 7) as u64 == 8 * k64 + 7);
        assert((8 * k) as u64 == 8 * k64);
        assert(((a >> (8 * k64)) & 0xff) as u8 == ((b >> (8 * k64)) & 0xff) as u8)
            by (bit_vector)
            requires
                k64 < 8,
                ((a & (1u64 << (8 * k64 + 0))) != 0) == ((b & (1u64 << (8 * k64 + 0))) != 0),
                ((a & (1u64 << (8 * k64 + 1))) != 0) == ((b & (1u64 << (8 * k64 + 1))) != 0),
                ((a & (1u64 << (8 * k64 + 2))) != 0) == ((b & (1u64 << (8 * k64 + 2))) != 0),
                ((a & (1u64 << (8 * k64 + 3))) != 0) == ((b & (1u64 << (8 * k64 + 3))) != 0),
                ((a & (1u64 << (8 * k64 + 4))) != 0) == ((b & (1u64 << (8 * k64 + 4))) != 0),
                ((a & (1u64 << (8 * k64 + 5))) != 0) == ((b & (1u64 << (8 * k64 + 5))) != 0),
                ((a & (1u64 << (8 * k64 + 6))) != 0) == ((b & (1u64 << (8 * k64 + 6))) != 0),
                ((a & (1u64 << (8 * k64 + 7))) != 0) == ((b & (1u64 << (8 * k64 + 7))) != 0),
        ;
    }
    crate::util::lemma_eq_by_cols(a, b);
}

} // verus!

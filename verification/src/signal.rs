//! The quantized signal: a polarity in {-1, 0, +1} and a magnitude in 0..=255.
//!
//! All arithmetic in this crate works on the signed intensity
//! `polarity * magnitude`, which lies in -255..=255, and saturates explicitly
//! at those bounds instead of using floating point.

use vstd::prelude::*;

verus! {

/// An atomic quantized signal.
///
/// The canonical zero signal has both fields zero; decay collapses any signal
/// whose magnitude reaches zero to that form.
#[derive(Clone, Copy, PartialEq, Eq, Structural, Debug)]
pub struct Signal {
    /// -1, 0 or +1.
    pub polarity: i8,
    /// 0..=255.
    pub magnitude: u8,
}

/// The canonical zero signal.
pub open spec fn zero_signal() -> Signal {
    Signal { polarity: 0, magnitude: 0 }
}

/// Clamp a signed intensity to the representable range -255..=255.
pub open spec fn clamp_intensity(v: int) -> int {
    if v > 255 {
        255
    } else if v < -255 {
        -255
    } else {
        v
    }
}

/// Re-quantize a signed intensity in -255..=255 into polarity + magnitude form.
pub open spec fn quantized(v: int) -> Signal
    recommends
        -255 <= v <= 255,
{
    if v > 0 {
        Signal { polarity: 1, magnitude: v as u8 }
    } else if v < 0 {
        Signal { polarity: -1i8, magnitude: (-v) as u8 }
    } else {
        zero_signal()
    }
}

/// One decay step: the magnitude shrinks to `magnitude * retention / 255`,
/// and a signal whose magnitude reaches zero collapses to the canonical zero.
pub open spec fn decayed(s: Signal, retention: u8) -> Signal {
    let new_mag = s.magnitude * retention / 255;
    if new_mag == 0 {
        zero_signal()
    } else {
        Signal { polarity: s.polarity, magnitude: new_mag as u8 }
    }
}

/// One scale step: like decay, but the polarity is kept even at magnitude zero.
pub open spec fn scaled(s: Signal, factor: u8) -> Signal {
    Signal { polarity: s.polarity, magnitude: (s.magnitude * factor / 255) as u8 }
}

impl Signal {
    /// Signed intensity: polarity times magnitude.
    pub open spec fn intensity(self) -> int {
        self.polarity as int * self.magnitude as int
    }

    /// A signal is well formed when its polarity is a sign and magnitude zero
    /// comes in the canonical form.
    pub open spec fn wf(self) -> bool {
        &&& -1 <= self.polarity <= 1
        &&& self.magnitude == 0 ==> self.polarity == 0
    }

    /// The canonical zero signal.
    pub fn zero() -> (s: Signal)
        ensures
            s == zero_signal(),
    {
        Signal { polarity: 0, magnitude: 0 }
    }

    /// A signal of positive polarity with the given magnitude.
    pub fn positive(magnitude: u8) -> (s: Signal)
        ensures
            s == (Signal { polarity: 1, magnitude }),
    {
        Signal { polarity: 1, magnitude }
    }

    /// A signal of negative polarity with the given magnitude.
    pub fn negative(magnitude: u8) -> (s: Signal)
        ensures
            s == (Signal { polarity: -1i8, magnitude }),
    {
        Signal { polarity: -1, magnitude }
    }

    /// Build a signal from a signed value, clamped to -255..=255.
    pub fn from_signed_i32(value: i32) -> (s: Signal)
        ensures
            s == quantized(clamp_intensity(value as int)),
            s.wf(),
    {
        let clamped: i32 = if value > 255 {
            255
        } else if value < -255 {
            -255
        } else {
            value
        };
        if clamped > 0 {
            Signal { polarity: 1, magnitude: clamped as u8 }
        } else if clamped < 0 {
            Signal { polarity: -1, magnitude: (-clamped) as u8 }
        } else {
            Signal { polarity: 0, magnitude: 0 }
        }
    }
}

/// The product of a polarity and a magnitude stays well inside `i16`.
pub proof fn lemma_intensity_product_bounds(p: i8, m: u8)
    ensures
        -32640 <= p as int * m as int <= 32640,
{
    assert(-32640 <= p as int * m as int <= 32640) by (nonlinear_arith)
        requires
            -128 <= p as int <= 127,
            0 <= m as int <= 255,
    ;
}

/// The scaled magnitude `m * f / 255` of two bytes fits back into a byte.
pub proof fn lemma_scaled_magnitude_bounds(m: u8, f: u8)
    ensures
        0 <= m as int * f as int <= 65025,
        0 <= m as int * f as int / 255 <= 255,
{
    assert(0 <= m as int * f as int <= 65025) by (nonlinear_arith)
        requires
            0 <= m as int <= 255,
            0 <= f as int <= 255,
    ;
}

/// A re-quantized in-range intensity reads back as the same intensity.
pub proof fn lemma_quantized_intensity(v: int)
    requires
        -255 <= v <= 255,
    ensures
        quantized(v).intensity() == v,
        quantized(v).wf(),
{
}

/// Decay monotonicity: with any retention below 255, one decay step strictly
/// decreases a nonzero magnitude, and a zero magnitude stays zero, so repeated
/// decay drives every signal to the canonical zero and then holds it there.
pub proof fn lemma_decay_monotone(s: Signal, retention: u8)
    requires
        retention < 255,
    ensures
        s.magnitude > 0 ==> decayed(s, retention).magnitude < s.magnitude,
        s.magnitude == 0 ==> decayed(s, retention) == zero_signal(),
        decayed(zero_signal(), retention) == zero_signal(),
{
    if s.magnitude > 0 {
        assert(s.magnitude * retention / 255 < s.magnitude) by (nonlinear_arith)
            requires
                retention < 255,
                s.magnitude > 0,
        ;
    }
}

/// Saturation bounds: combining two in-range intensities clamps the sum, so
/// the result never leaves -255..=255.
pub proof fn lemma_saturation_bounds(a: int, b: int)
    requires
        -255 <= a <= 255,
        -255 <= b <= 255,
    ensures
        -255 <= clamp_intensity(a + b) <= 255,
        quantized(clamp_intensity(a + b)).intensity() == clamp_intensity(a + b),
{
    lemma_quantized_intensity(clamp_intensity(a + b));
}

} // verus!

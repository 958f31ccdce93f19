//! One time frame: a dense, fixed-length sequence of signals.
//!
//! All frame arithmetic lives here: decay, saturating combination, ranged
//! writes with defensive clamping, and the energy metric that the threshold
//! engine measures regions against.

use crate::signal::{
    clamp_intensity, decayed, lemma_intensity_product_bounds, lemma_scaled_magnitude_bounds,
    quantized, scaled, zero_signal, Signal,
};
use std::ops::Range;
use vstd::prelude::*;

verus! {

/// Saturating combination of two signals: their intensities are added and the
/// sum is clamped to -255..=255 before re-quantization.
pub open spec fn combined(a: Signal, b: Signal) -> Signal {
    quantized(clamp_intensity(a.intensity() + b.intensity()))
}

/// The squared magnitude of one signal.
pub open spec fn sq_mag(s: Signal) -> int {
    s.magnitude * s.magnitude
}

/// Sum of squared magnitudes over a whole sequence.
pub open spec fn energy_seq(s: Seq<Signal>) -> int
    decreases s.len(),
{
    if s.len() == 0 {
        0
    } else {
        energy_seq(s.drop_last()) + sq_mag(s.last())
    }
}

/// The elements of `v` with indices in `start..end`, clamped to the vector
/// bounds: indices past the end of `v` are ignored.
pub open spec fn clamped_range(v: Seq<Signal>, start: int, end: int) -> Seq<Signal> {
    let stop = if end < v.len() {
        end
    } else {
        v.len() as int
    };
    if start >= stop || start < 0 {
        Seq::empty()
    } else {
        v.subrange(start, stop)
    }
}

/// Saturate a nonnegative sum at `u64::MAX`, as the energy accumulator does.
pub open spec fn sat_u64(e: int) -> int {
    if e > u64::MAX {
        u64::MAX as int
    } else {
        e
    }
}

/// Saturate a nonnegative sum at `u32::MAX`, the range of a reported energy.
pub open spec fn sat_u32(e: int) -> int {
    if e > u32::MAX {
        u32::MAX as int
    } else {
        e
    }
}

/// Energy of the clamped range `start..end` of `v`, saturated at `u32::MAX`.
pub open spec fn range_energy_spec(v: Seq<Signal>, start: int, end: int) -> int {
    sat_u32(energy_seq(clamped_range(v, start, end)))
}

/// The result of adding `sig` into `v` over `start..end`: at most
/// `min(sig.len(), end - start)` elements are combined, and indices past the
/// end of `v` are ignored.
pub open spec fn added_range(v: Seq<Signal>, sig: Seq<Signal>, start: int, end: int) -> Seq<
    Signal,
> {
    Seq::new(
        v.len(),
        |j: int|
            if start <= j < end && j - start < sig.len() {
                combined(v[j], sig[j - start])
            } else {
                v[j]
            },
    )
}

/// The result of writing `sig` over `start..end` of `v`, with the same
/// clamping as `added_range`.
pub open spec fn set_range_spec(v: Seq<Signal>, sig: Seq<Signal>, start: int, end: int) -> Seq<
    Signal,
> {
    Seq::new(
        v.len(),
        |j: int|
            if start <= j < end && j - start < sig.len() {
                sig[j - start]
            } else {
                v[j]
            },
    )
}

/// Number of signals with nonzero magnitude.
pub open spec fn count_nonzero(s: Seq<Signal>) -> int
    decreases s.len(),
{
    if s.len() == 0 {
        0
    } else {
        count_nonzero(s.drop_last()) + if s.last().magnitude > 0 {
            1int
        } else {
            0int
        }
    }
}

/// Largest magnitude in the sequence, 0 when it is empty.
pub open spec fn max_mag(s: Seq<Signal>) -> int
    decreases s.len(),
{
    if s.len() == 0 {
        0
    } else if s.last().magnitude >= max_mag(s.drop_last()) {
        s.last().magnitude as int
    } else {
        max_mag(s.drop_last())
    }
}

pub proof fn lemma_energy_seq_nonneg(s: Seq<Signal>)
    ensures
        energy_seq(s) >= 0,
    decreases s.len(),
{
    if s.len() > 0 {
        lemma_energy_seq_nonneg(s.drop_last());
    }
}

pub proof fn lemma_energy_seq_push(s: Seq<Signal>, x: Signal)
    ensures
        energy_seq(s.push(x)) == energy_seq(s) + sq_mag(x),
{
    assert(s.push(x).drop_last() =~= s);
}

/// A signal-based vector representing one time frame.
///
/// Its length is fixed at construction; every arithmetic operation preserves
/// it.
pub struct FieldVector {
    signals: Vec<Signal>,
}

impl View for FieldVector {
    type V = Seq<Signal>;

    closed spec fn view(&self) -> Seq<Signal> {
        self.signals@
    }
}

impl FieldVector {
    /// Create a new zero-initialized vector.
    #[verifier::loop_isolation(false)]
    pub fn new(dims: usize) -> (v: Self)
        ensures
            v@.len() == dims,
            forall|i: int| 0 <= i < dims ==> v@[i] == zero_signal(),
    {
        let mut signals: Vec<Signal> = Vec::new();
        let mut i: usize = 0;
        while i < dims
            invariant
                i <= dims,
                signals@.len() == i,
                forall|j: int| 0 <= j < i ==> signals@[j] == zero_signal(),
            decreases dims - i,
        {
            signals.push(Signal::zero());
            i = i + 1;
        }
        FieldVector { signals }
    }

    /// Create from a raw signal vector.
    pub fn from_signals(signals: Vec<Signal>) -> (v: Self)
        ensures
            v@ == signals@,
    {
        FieldVector { signals }
    }

    /// Number of dimensions.
    pub fn dims(&self) -> (n: usize)
        ensures
            n == self@.len(),
    {
        self.signals.len()
    }

    /// The signal at `idx`.
    pub fn get(&self, idx: usize) -> (s: Signal)
        requires
            idx < self@.len(),
        ensures
            s == self@[idx as int],
    {
        self.signals[idx]
    }

    /// Replace the signal at `idx`.
    pub fn set(&mut self, idx: usize, signal: Signal)
        requires
            idx < old(self)@.len(),
        ensures
            final(self)@ == old(self)@.update(idx as int, signal),
    {
        self.signals[idx] = signal;
    }

    /// The signed intensity at `idx`.
    pub fn get_i16(&self, idx: usize) -> (r: i16)
        requires
            idx < self@.len(),
        ensures
            r as int == self@[idx as int].intensity(),
            -32640 <= r as int <= 32640,
    {
        let s = self.signals[idx];
        proof {
            lemma_intensity_product_bounds(s.polarity, s.magnitude);
        }
        (s.polarity as i16) * (s.magnitude as i16)
    }

    /// Set the signal at `idx` from a signed intensity, clamped to -255..=255.
    pub fn set_i16(&mut self, idx: usize, value: i16)
        requires
            idx < old(self)@.len(),
        ensures
            final(self)@ == old(self)@.update(
                idx as int,
                quantized(clamp_intensity(value as int)),
            ),
    {
        let s = Signal::from_signed_i32(value as i32);
        self.signals[idx] = s;
    }

    /// Decay every signal toward zero: each magnitude becomes
    /// `magnitude * retention / 255`, and signals that reach zero collapse to
    /// the canonical zero form.
    #[verifier::loop_isolation(false)]
    pub fn decay(&mut self, retention: u8)
        ensures
            final(self)@.len() == old(self)@.len(),
            forall|i: int|
                0 <= i < old(self)@.len() ==> final(self)@[i] == decayed(
                    old(self)@[i],
                    retention,
                ),
    {
        let n = self.signals.len();
        let mut i: usize = 0;
        while i < n
            invariant
                i <= n,
                self@.len() == n,
                forall|j: int| 0 <= j < i ==> self@[j] == decayed(old(self)@[j], retention),
                forall|j: int| i <= j < n ==> self@[j] == old(self)@[j],
            decreases n - i,
        {
            let s = self.signals[i];
            proof {
                lemma_scaled_magnitude_bounds(s.magnitude, retention);
            }
            let new_mag = ((s.magnitude as u16) * (retention as u16) / 255) as u8;
            if new_mag == 0 {
                self.signals[i] = Signal::zero();
            } else {
                self.signals[i] = Signal { polarity: s.polarity, magnitude: new_mag };
            }
            i = i + 1;
        }
    }

    /// Add another vector elementwise, saturating each sum at -255..=255.
    #[verifier::loop_isolation(false)]
    pub fn add(&mut self, other: &FieldVector)
        requires
            other@.len() == old(self)@.len(),
        ensures
            final(self)@.len() == old(self)@.len(),
            forall|i: int|
                0 <= i < old(self)@.len() ==> final(self)@[i] == combined(
                    old(self)@[i],
                    other@[i],
                ),
    {
        let n = self.signals.len();
        let mut i: usize = 0;
        while i < n
            invariant
                i <= n,
                self@.len() == n,
                forall|j: int| 0 <= j < i ==> self@[j] == combined(old(self)@[j], other@[j]),
                forall|j: int| i <= j < n ==> self@[j] == old(self)@[j],
            decreases n - i,
        {
            let a = self.get_i16(i);
            let b = other.get_i16(i);
            let sum = (a as i32) + (b as i32);
            self.signals[i] = Signal::from_signed_i32(sum);
            i = i + 1;
        }
    }

    /// Add signals into the range, saturating; writes at most
    /// `min(signals.len(), range length)` elements and silently ignores
    /// indices beyond the vector length.
    #[verifier::loop_isolation(false)]
    pub fn add_to_range(&mut self, signals: &[Signal], range: Range<usize>)
        ensures
            final(self)@ == added_range(
                old(self)@,
                signals@,
                range.start as int,
                range.end as int,
            ),
    {
        let ghost target = added_range(old(self)@, signals@, range.start as int, range.end as int);
        let range_len: usize = if range.end > range.start {
            range.end - range.start
        } else {
            0
        };
        let count: usize = if signals.len() < range_len {
            signals.len()
        } else {
            range_len
        };
        let n = self.signals.len();
        let mut i: usize = 0;
        while i < count
            invariant
                i <= count,
                self@.len() == n,
                forall|j: int|
                    0 <= j < n && range.start <= j < range.start + i ==> self@[j] == target[j],
                forall|j: int| 0 <= j < n && !(range.start <= j < range.start + i) ==> self@[j]
                    == old(self)@[j],
            decreases count - i,
        {
            let idx = range.start + i;
            if idx < n {
                let current = self.get_i16(idx);
                let s = signals[i];
                proof {
                    lemma_intensity_product_bounds(s.polarity, s.magnitude);
                }
                let delta = (s.polarity as i16) * (s.magnitude as i16);
                let sum = (current as i32) + (delta as i32);
                self.signals[idx] = Signal::from_signed_i32(sum);
                proof {
                    assert(self@[idx as int] == target[idx as int]);
                }
            }
            i = i + 1;
        }
        proof {
            assert(self@ =~= target);
        }
    }

    /// Write signals over the range; same clamping as `add_to_range`, but the
    /// stored signals are replaced instead of combined.
    #[verifier::loop_isolation(false)]
    pub fn set_range(&mut self, signals: &[Signal], range: Range<usize>)
        ensures
            final(self)@ == set_range_spec(
                old(self)@,
                signals@,
                range.start as int,
                range.end as int,
            ),
    {
        let ghost target = set_range_spec(
            old(self)@,
            signals@,
            range.start as int,
            range.end as int,
        );
        let range_len: usize = if range.end > range.start {
            range.end - range.start
        } else {
            0
        };
        let count: usize = if signals.len() < range_len {
            signals.len()
        } else {
            range_len
        };
        let n = self.signals.len();
        let mut i: usize = 0;
        while i < count
            invariant
                i <= count,
                self@.len() == n,
                forall|j: int|
                    0 <= j < n && range.start <= j < range.start + i ==> self@[j] == target[j],
                forall|j: int| 0 <= j < n && !(range.start <= j < range.start + i) ==> self@[j]
                    == old(self)@[j],
            decreases count - i,
        {
            let idx = range.start + i;
            if idx < n {
                self.signals[idx] = signals[i];
            }
            i = i + 1;
        }
        proof {
            assert(self@ =~= target);
        }
    }

    /// The signals in the range, clamped to the vector bounds.
    #[verifier::loop_isolation(false)]
    pub fn get_range(&self, range: Range<usize>) -> (r: Vec<Signal>)
        ensures
            r@ == clamped_range(self@, range.start as int, range.end as int),
    {
        let n = self.signals.len();
        let stop: usize = if range.end < n {
            range.end
        } else {
            n
        };
        let mut r: Vec<Signal> = Vec::new();
        if range.start >= stop {
            proof {
                assert(r@ =~= clamped_range(self@, range.start as int, range.end as int));
            }
            return r;
        }
        let mut i: usize = range.start;
        while i < stop
            invariant
                range.start <= i <= stop,
                r@ =~= self@.subrange(range.start as int, i as int),
            decreases stop - i,
        {
            r.push(self.signals[i]);
            proof {
                assert(r@ =~= self@.subrange(range.start as int, i + 1));
            }
            i = i + 1;
        }
        proof {
            assert(r@ =~= clamped_range(self@, range.start as int, range.end as int));
        }
        r
    }

    /// Energy (sum of squared magnitudes) over the range, clamped to the
    /// vector bounds and saturated at `u32::MAX`.
    #[verifier::loop_isolation(false)]
    pub fn range_energy(&self, range: Range<usize>) -> (r: u32)
        ensures
            r as int == range_energy_spec(self@, range.start as int, range.end as int),
    {
        let n = self.signals.len();
        let stop: usize = if range.end < n {
            range.end
        } else {
            n
        };
        let mut acc: u64 = 0;
        if range.start >= stop {
            return 0;
        }
        let mut i: usize = range.start;
        while i < stop
            invariant
                range.start <= i <= stop,
                acc as int == sat_u64(energy_seq(self@.subrange(range.start as int, i as int))),
            decreases stop - i,
        {
            let mag = self.signals[i].magnitude;
            proof {
                lemma_scaled_magnitude_bounds(mag, mag);
            }
            let m = mag as u64;
            let mm = m * m;
            proof {
                let prefix = self@.subrange(range.start as int, i as int);
                lemma_energy_seq_push(prefix, self@[i as int]);
                assert(prefix.push(self@[i as int]) =~= self@.subrange(
                    range.start as int,
                    i + 1,
                ));
                lemma_energy_seq_nonneg(prefix);
            }
            if acc > u64::MAX - mm {
                acc = u64::MAX;
            } else {
                acc = acc + mm;
            }
            i = i + 1;
        }
        if acc > (u32::MAX as u64) {
            u32::MAX
        } else {
            acc as u32
        }
    }

    /// Whether the range's energy exceeds the threshold.
    pub fn range_active(&self, range: Range<usize>, threshold: u32) -> (r: bool)
        ensures
            r == (range_energy_spec(self@, range.start as int, range.end as int)
                > threshold as int),
    {
        let e = self.range_energy(range);
        e > threshold
    }

    /// Whether every signal has zero magnitude.
    #[verifier::loop_isolation(false)]
    pub fn is_zero(&self) -> (r: bool)
        ensures
            r == (forall|i: int| 0 <= i < self@.len() ==> self@[i].magnitude == 0),
    {
        let n = self.signals.len();
        let mut i: usize = 0;
        while i < n
            invariant
                i <= n,
                forall|j: int| 0 <= j < i ==> self@[j].magnitude == 0,
            decreases n - i,
        {
            if self.signals[i].magnitude != 0 {
                proof {
                    assert(!(forall|k: int|
                        0 <= k < self@.len() ==> self@[k].magnitude == 0)) by {
                        assert(self@[i as int].magnitude != 0);
                    }
                }
                return false;
            }
            i = i + 1;
        }
        true
    }

    /// Number of signals with nonzero magnitude.
    #[verifier::loop_isolation(false)]
    pub fn non_zero_count(&self) -> (r: usize)
        ensures
            r as int == count_nonzero(self@),
    {
        let n = self.signals.len();
        let mut count: usize = 0;
        let mut i: usize = 0;
        while i < n
            invariant
                i <= n,
                count <= i,
                count as int == count_nonzero(self@.subrange(0, i as int)),
            decreases n - i,
        {
            proof {
                assert(self@.subrange(0, i + 1).drop_last() =~= self@.subrange(0, i as int));
            }
            if self.signals[i].magnitude > 0 {
                count = count + 1;
            }
            i = i + 1;
        }
        proof {
            assert(self@.subrange(0, n as int) =~= self@);
        }
        count
    }

    /// Largest magnitude in the vector, 0 when it is empty.
    #[verifier::loop_isolation(false)]
    pub fn max_magnitude(&self) -> (r: u8)
        ensures
            r as int == max_mag(self@),
    {
        let n = self.signals.len();
        let mut best: u8 = 0;
        let mut i: usize = 0;
        while i < n
            invariant
                i <= n,
                best as int == max_mag(self@.subrange(0, i as int)),
            decreases n - i,
        {
            proof {
                assert(self@.subrange(0, i + 1).drop_last() =~= self@.subrange(0, i as int));
            }
            let m = self.signals[i].magnitude;
            if m > best {
                best = m;
            }
            i = i + 1;
        }
        proof {
            assert(self@.subrange(0, n as int) =~= self@);
        }
        best
    }

    /// Scale every magnitude by `factor / 255`, keeping polarities.
    #[verifier::loop_isolation(false)]
    pub fn scale(&mut self, factor: u8)
        ensures
            final(self)@.len() == old(self)@.len(),
            forall|i: int|
                0 <= i < old(self)@.len() ==> final(self)@[i] == scaled(old(self)@[i], factor),
    {
        let n = self.signals.len();
        let mut i: usize = 0;
        while i < n
            invariant
                i <= n,
                self@.len() == n,
                forall|j: int| 0 <= j < i ==> self@[j] == scaled(old(self)@[j], factor),
                forall|j: int| i <= j < n ==> self@[j] == old(self)@[j],
            decreases n - i,
        {
            let s = self.signals[i];
            proof {
                lemma_scaled_magnitude_bounds(s.magnitude, factor);
            }
            let new_mag = ((s.magnitude as u16) * (factor as u16) / 255) as u8;
            self.signals[i] = Signal { polarity: s.polarity, magnitude: new_mag };
            i = i + 1;
        }
    }

    /// Borrow the underlying signals.
    pub fn as_slice(&self) -> (r: &[Signal])
        ensures
            r@ == self@,
    {
        self.signals.as_slice()
    }

    /// Borrow the underlying signals mutably; whatever the caller writes
    /// through the slice is the vector's new contents.
    pub fn as_mut_slice(&mut self) -> (r: &mut [Signal])
        ensures
            r@ == old(self)@,
            final(r)@ == final(self)@,
    {
        self.signals.as_mut_slice()
    }
}

impl Clone for FieldVector {
    /// Duplicate the frame; the copy holds the same signals.
    #[verifier::loop_isolation(false)]
    fn clone(&self) -> (v: Self)
        ensures
            v@ == self@,
    {
        let n = self.signals.len();
        let mut signals: Vec<Signal> = Vec::new();
        let mut i: usize = 0;
        while i < n
            invariant
                i <= n,
                signals@ =~= self@.subrange(0, i as int),
            decreases n - i,
        {
            signals.push(self.signals[i]);
            proof {
                assert(signals@ =~= self@.subrange(0, i + 1));
            }
            i = i + 1;
        }
        proof {
            assert(signals@ =~= self@);
        }
        FieldVector { signals }
    }
}

impl Default for FieldVector {
    /// A zero-filled vector of 64 dimensions.
    fn default() -> (v: Self)
        ensures
            v@.len() == 64,
            forall|i: int| 0 <= i < 64 ==> v@[i] == zero_signal(),
    {
        FieldVector::new(64)
    }
}

} // verus!

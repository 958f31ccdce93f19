//! The temporal field: a ring buffer of decaying frames with monitored
//! regions and synchronous pub/sub notification.
//!
//! Every write and every tick re-evaluates the monitored regions against the
//! current frame and delivers edge-triggered events to every registered
//! observer before the call returns.

use crate::config::FieldConfig;
use crate::observer::{EventView, FieldEvent, FieldObserver, MonitoredRegion, TriggerConfig};
use crate::signal::{clamp_intensity, decayed, quantized, zero_signal, Signal};
use crate::vector::{
    added_range, clamped_range, combined, count_nonzero, max_mag, range_energy_spec, sat_u64,
    set_range_spec, FieldVector,
};
use std::ops::Range;
use vstd::prelude::*;

verus! {

/// The mathematical state of a temporal field: the frame contents, the
/// cursor and counters, the trigger configuration and the per-region
/// hysteresis states, plus how many observers are registered.
#[verifier::ext_equal]
pub struct FieldView {
    pub frames: Seq<Seq<Signal>>,
    pub config: FieldConfig,
    pub write_head: int,
    pub tick_count: int,
    pub regions: Seq<MonitoredRegion>,
    pub convergence_threshold: int,
    pub was_active: Seq<bool>,
    pub observer_count: int,
}

/// The hysteresis state machine: an active region stays active while its
/// energy is at least `off`, a quiet region becomes active only when its
/// energy exceeds `on`; between the thresholds the previous state is held.
pub open spec fn hysteresis_step(was: bool, energy: int, on: int, off: int) -> bool {
    if was {
        energy >= off
    } else {
        energy > on
    }
}

impl FieldView {
    /// Structural well-formedness: a validated configuration backs the field,
    /// the ring holds exactly `frame_count` frames of `dims` signals, the
    /// write head is in bounds, and the hysteresis states run parallel to the
    /// regions.
    pub open spec fn wf(self) -> bool {
        &&& self.config.valid()
        &&& self.frames.len() == self.config.frame_count
        &&& 0 <= self.write_head < self.frames.len()
        &&& forall|i: int|
            0 <= i < self.frames.len() ==> (#[trigger] self.frames[i]).len() == self.config.dims
        &&& self.was_active.len() == self.regions.len()
        &&& self.tick_count >= 0
        &&& self.observer_count >= 0
        &&& self.convergence_threshold >= 0
    }

    /// The frame under the write head.
    pub open spec fn current(self) -> Seq<Signal> {
        self.frames[self.write_head]
    }

    /// Energy of region `i` measured against the current frame.
    pub open spec fn region_energy(self, i: int) -> int {
        range_energy_spec(
            self.current(),
            self.regions[i].range.start as int,
            self.regions[i].range.end as int,
        )
    }

    /// The state region `i` moves to in this evaluation cycle.
    pub open spec fn region_next_active(self, i: int) -> bool {
        hysteresis_step(
            self.was_active[i],
            self.region_energy(i),
            self.regions[i].on_threshold as int,
            self.regions[i].off_threshold as int,
        )
    }
}

/// The edge events one region contributes in one evaluation cycle: one
/// activation event on a quiet-to-active transition, one quiet event on an
/// active-to-quiet transition, nothing otherwise.
pub open spec fn region_edge_events(
    was: bool,
    now: bool,
    range: Range<usize>,
    energy: int,
    on: int,
    off: int,
) -> Seq<EventView> {
    if now && !was {
        seq![EventView::RegionActive { region: range, energy, threshold: on }]
    } else if !now && was {
        seq![EventView::RegionQuiet { region: range, energy, threshold: off }]
    } else {
        Seq::empty()
    }
}

/// Edge events of the first `n` regions, in region order.
pub open spec fn edge_events_prefix(v: FieldView, n: int) -> Seq<EventView>
    decreases n,
{
    if n <= 0 {
        Seq::empty()
    } else {
        edge_events_prefix(v, n - 1) + region_edge_events(
            v.was_active[n - 1],
            v.region_next_active(n - 1),
            v.regions[n - 1].range,
            v.region_energy(n - 1),
            v.regions[n - 1].on_threshold as int,
            v.regions[n - 1].off_threshold as int,
        )
    }
}

/// Ranges of the regions among the first `n` that are active after this
/// cycle, in region order.
pub open spec fn active_ranges_prefix(v: FieldView, n: int) -> Seq<Range<usize>>
    decreases n,
{
    if n <= 0 {
        Seq::empty()
    } else if v.region_next_active(n - 1) {
        active_ranges_prefix(v, n - 1).push(v.regions[n - 1].range)
    } else {
        active_ranges_prefix(v, n - 1)
    }
}

/// Weighted energy total of the active regions among the first `n`: each
/// active region contributes `energy * weight / 100`, and the running total
/// saturates at `u64::MAX`.
pub open spec fn weighted_total_prefix(v: FieldView, n: int) -> int
    decreases n,
{
    if n <= 0 {
        0
    } else if v.region_next_active(n - 1) {
        sat_u64(
            weighted_total_prefix(v, n - 1) + v.region_energy(n - 1) * v.regions[n
                - 1].weight / 100,
        )
    } else {
        weighted_total_prefix(v, n - 1)
    }
}

/// All events one evaluation cycle emits: the edge events in region order,
/// then one convergence event when at least `convergence_threshold` regions
/// are active; no convergence event is ever emitted without regions.
pub open spec fn events_of(v: FieldView) -> Seq<EventView> {
    if v.regions.len() == 0 {
        Seq::empty()
    } else {
        let edges = edge_events_prefix(v, v.regions.len() as int);
        let actives = active_ranges_prefix(v, v.regions.len() as int);
        if actives.len() >= v.convergence_threshold {
            edges.push(
                EventView::Convergence {
                    active_regions: actives,
                    total_energy: weighted_total_prefix(v, v.regions.len() as int),
                },
            )
        } else {
            edges
        }
    }
}

/// The state after one evaluation cycle: every hysteresis flag moves to its
/// next state; nothing else changes.
pub open spec fn evaluated(v: FieldView) -> FieldView {
    FieldView {
        was_active: Seq::new(v.regions.len(), |i: int| v.region_next_active(i)),
        ..v
    }
}

/// The state after an additive write into a range of the current frame.
pub open spec fn wrote_region(v: FieldView, sig: Seq<Signal>, start: int, end: int) -> FieldView {
    FieldView {
        frames: v.frames.update(v.write_head, added_range(v.current(), sig, start, end)),
        ..v
    }
}

/// The state after a replacing write into a range of the current frame.
pub open spec fn set_region_spec(v: FieldView, sig: Seq<Signal>, start: int, end: int) -> FieldView {
    FieldView {
        frames: v.frames.update(v.write_head, set_range_spec(v.current(), sig, start, end)),
        ..v
    }
}

/// The state after a saturating full-vector add into the current frame.
pub open spec fn wrote_full(v: FieldView, sig: Seq<Signal>) -> FieldView {
    FieldView {
        frames: v.frames.update(
            v.write_head,
            Seq::new(v.current().len(), |i: int| combined(v.current()[i], sig[i])),
        ),
        ..v
    }
}

/// One frame after one decay step.
pub open spec fn decayed_frame(f: Seq<Signal>, retention: u8) -> Seq<Signal> {
    Seq::new(f.len(), |i: int| decayed(f[i], retention))
}

/// The state after one tick: the counter advances and every frame in the
/// ring decays, not only the current one.
pub open spec fn ticked(v: FieldView) -> FieldView {
    FieldView {
        tick_count: v.tick_count + 1,
        frames: Seq::new(v.frames.len(), |i: int| decayed_frame(v.frames[i], v.config.retention)),
        ..v
    }
}

/// The state after the write head advances one slot, wrapping at the ring's
/// end; the exposed slot is not cleared.
pub open spec fn advanced(v: FieldView) -> FieldView {
    FieldView { write_head: (v.write_head + 1) % (v.config.frame_count as int), ..v }
}

/// The state after `n` ticks in sequence, each followed by an evaluation
/// cycle.
pub open spec fn ticked_n(v: FieldView, n: int) -> FieldView
    decreases n,
{
    if n <= 0 {
        v
    } else {
        evaluated(ticked(ticked_n(v, n - 1)))
    }
}

/// A zero-filled frame of `dims` signals.
pub open spec fn zero_frame(dims: int) -> Seq<Signal> {
    Seq::new(dims as nat, |i: int| zero_signal())
}

/// Bring a ring position back into `0..fc`; the input is off by at most one
/// whole ring length.
pub open spec fn wrap_index(k: int, fc: int) -> int {
    if k < 0 {
        k + fc
    } else if k >= fc {
        k - fc
    } else {
        k
    }
}

/// How many frames a window request of `n` actually covers.
pub open spec fn window_len(v: FieldView, n: int) -> int {
    if n <= v.frames.len() {
        n
    } else {
        v.frames.len() as int
    }
}

/// The last `w` frames in chronological order, oldest first: entry `i` is
/// the frame `w - i` slots behind the write head, wrapping around the ring.
pub open spec fn window_spec(v: FieldView, w: int) -> Seq<Seq<Signal>> {
    Seq::new(w as nat, |i: int| v.frames[wrap_index(v.write_head - w + i, v.frames.len() as int)])
}

/// The length of a requested range, zero when it is inverted.
pub open spec fn range_len(range: Range<usize>) -> int {
    if range.end > range.start {
        range.end - range.start
    } else {
        0
    }
}

/// Index of the window frame with the highest energy in the range among the
/// first `n`; ties keep the earliest frame, and index 0 stands when every
/// energy is zero.
pub open spec fn peak_index(win: Seq<Seq<Signal>>, start: int, end: int, n: int) -> int
    decreases n,
{
    if n <= 1 {
        0
    } else {
        let b = peak_index(win, start, end, n - 1);
        if range_energy_spec(win[n - 1], start, end) > range_energy_spec(win[b], start, end) {
            n - 1
        } else {
            b
        }
    }
}

/// Signed addition saturating at the `i64` bounds, as the mean accumulator
/// does.
pub open spec fn sat_add_i64(a: int, b: int) -> int {
    if a + b > i64::MAX {
        i64::MAX as int
    } else if a + b < i64::MIN {
        i64::MIN as int
    } else {
        a + b
    }
}

/// Sum of the intensities at dimension `idx` over the first `n` window
/// frames, saturating at the `i64` bounds.
pub open spec fn window_sum_at(win: Seq<Seq<Signal>>, idx: int, n: int) -> int
    decreases n,
{
    if n <= 0 {
        0
    } else {
        sat_add_i64(window_sum_at(win, idx, n - 1), win[n - 1][idx].intensity())
    }
}

/// Truncating signed division for a positive divisor, as the integer mean
/// uses.
pub open spec fn tdiv(a: int, b: int) -> int {
    if a >= 0 {
        a / b
    } else {
        -((-a) / b)
    }
}

/// The mean signal at dimension `idx` over `n` window frames: the truncated
/// average intensity, re-quantized.
pub open spec fn mean_signal(win: Seq<Seq<Signal>>, idx: int, n: int) -> Signal {
    quantized(clamp_intensity(tdiv(window_sum_at(win, idx, n), n)))
}

/// Largest magnitude across a sequence of frames.
pub open spec fn frames_max_mag(fs: Seq<Seq<Signal>>) -> int
    decreases fs.len(),
{
    if fs.len() == 0 {
        0
    } else if max_mag(fs.last()) >= frames_max_mag(fs.drop_last()) {
        max_mag(fs.last())
    } else {
        frames_max_mag(fs.drop_last())
    }
}

/// Unsigned addition saturating at `usize::MAX`, as the activity counter
/// does.
pub open spec fn sat_add_usize(a: int, b: int) -> int {
    if a + b > usize::MAX {
        usize::MAX as int
    } else {
        a + b
    }
}

/// Number of nonzero signals across a sequence of frames, saturating at
/// `usize::MAX`.
pub open spec fn total_activity_spec(fs: Seq<Seq<Signal>>) -> int
    decreases fs.len(),
{
    if fs.len() == 0 {
        0
    } else {
        sat_add_usize(total_activity_spec(fs.drop_last()), count_nonzero(fs.last()))
    }
}

/// The view sequence of a vector of events.
pub open spec fn views_of_events(s: Seq<FieldEvent>) -> Seq<EventView> {
    s.map_values(|e: FieldEvent| e@)
}

pub proof fn lemma_views_of_push(s: Seq<FieldEvent>, e: FieldEvent)
    ensures
        views_of_events(s.push(e)) == views_of_events(s).push(e@),
{
    assert(views_of_events(s.push(e)) =~= views_of_events(s).push(e@));
}

/// One frame deposited into the ring: the current slot is overwritten with
/// the frame and the write head advances one slot.
pub open spec fn frame_written(v: FieldView, f: Seq<Signal>) -> FieldView {
    advanced(FieldView { frames: v.frames.update(v.write_head, f), ..v })
}

/// A whole sequence of frames deposited in order.
pub open spec fn frames_written(v: FieldView, fs: Seq<Seq<Signal>>) -> FieldView
    decreases fs.len(),
{
    if fs.len() == 0 {
        v
    } else {
        frame_written(frames_written(v, fs.drop_last()), fs.last())
    }
}

/// Ring wrap correctness: depositing `k` frames — writing each and advancing
/// the write head once per frame — leaves the write head at
/// `(write_head + k) mod frame_count`, also when `k` exceeds the ring's
/// length; the ring's shape is untouched.
pub proof fn lemma_ring_wrap(v: FieldView, fs: Seq<Seq<Signal>>)
    requires
        v.wf(),
        forall|j: int| 0 <= j < fs.len() ==> (#[trigger] fs[j]).len() == v.config.dims,
    ensures
        frames_written(v, fs).wf(),
        frames_written(v, fs).frames.len() == v.frames.len(),
        frames_written(v, fs).config == v.config,
        frames_written(v, fs).regions == v.regions,
        frames_written(v, fs).was_active == v.was_active,
        frames_written(v, fs).write_head == (v.write_head + fs.len()) % (
        v.frames.len() as int),
    decreases fs.len(),
{
    let fc = v.frames.len() as int;
    if fs.len() == 0 {
        vstd::arithmetic::div_mod::lemma_small_mod(v.write_head as nat, v.frames.len());
    } else {
        lemma_ring_wrap(v, fs.drop_last());
        let u = frames_written(v, fs.drop_last());
        vstd::arithmetic::div_mod::lemma_add_mod_noop(
            v.write_head + fs.len() - 1,
            1,
            fc,
        );
        if fc == 1 {
            vstd::arithmetic::div_mod::lemma_mod_self_0(fc);
            assert(u.write_head == 0);
            assert((u.write_head + 1) % fc == 0);
            vstd::arithmetic::div_mod::lemma_mod_self_0(fc);
            assert((v.write_head + fs.len()) % fc == 0) by {
                vstd::arithmetic::div_mod::lemma_mod_division_less_than_divisor(
                    v.write_head + fs.len(),
                    fc,
                );
            }
        } else {
            assert(1int % fc == 1) by {
                vstd::arithmetic::div_mod::lemma_small_mod(1nat, v.frames.len());
            }
            assert(u.write_head % fc == u.write_head) by {
                vstd::arithmetic::div_mod::lemma_small_mod(
                    u.write_head as nat,
                    v.frames.len(),
                );
            }
        }
    }
}

/// Window chronology: after depositing the frames `fs` in order, a window of
/// any width `w` up to both the ring's length and the number of deposits
/// reads back the last `w` deposited frames, oldest first.
pub proof fn lemma_window_chronology(v: FieldView, fs: Seq<Seq<Signal>>, w: int)
    requires
        v.wf(),
        forall|j: int| 0 <= j < fs.len() ==> (#[trigger] fs[j]).len() == v.config.dims,
        0 <= w <= fs.len(),
        w <= v.frames.len(),
    ensures
        forall|i: int|
            0 <= i < w ==> window_spec(frames_written(v, fs), w)[i] == fs[fs.len() - w + i],
    decreases fs.len(),
{
    if w > 0 {
        let fc = v.frames.len() as int;
        let u = frames_written(v, fs.drop_last());
        let r = frames_written(v, fs);
        lemma_ring_wrap(v, fs.drop_last());
        lemma_ring_wrap(v, fs);
        assert(r == frame_written(u, fs.last()));
        assert(r.write_head == (u.write_head + 1) % fc);
        if u.write_head + 1 == fc {
            vstd::arithmetic::div_mod::lemma_mod_self_0(fc);
            assert(r.write_head == 0);
        } else {
            vstd::arithmetic::div_mod::lemma_small_mod(
                (u.write_head + 1) as nat,
                v.frames.len(),
            );
            assert(r.write_head == u.write_head + 1);
        }
        assert(wrap_index(r.write_head - 1, fc) == u.write_head);
        assert(window_spec(r, w)[w - 1] == fs.last());
        lemma_window_chronology(v, fs.drop_last(), w - 1);
        assert forall|i: int| 0 <= i < w - 1 implies window_spec(r, w)[i] == fs[fs.len() - w
            + i] by {
            let a_r = wrap_index(r.write_head - w + i, fc);
            let a_u = wrap_index(u.write_head - (w - 1) + i, fc);
            assert(a_r == a_u);
            assert(a_u != u.write_head);
            assert(r.frames[a_u] == u.frames[a_u]);
            assert(window_spec(u, w - 1)[i] == fs.drop_last()[fs.len() - 1 - (w - 1) + i]);
        }
    }
}

/// Hysteresis stability: starting quiet, the energy sequence
/// `on + 1`, `(on + off) / 2`, `off - 1`, `(on + off) / 2`, `on + 1`
/// produces exactly the event pattern active, none, quiet, none, active —
/// the dead zone between the thresholds never emits and never flips state.
pub proof fn lemma_hysteresis_stability(on: int, off: int, range: Range<usize>)
    requires
        off < on,
    ensures
        hysteresis_step(false, on + 1, on, off) == true,
        region_edge_events(false, true, range, on + 1, on, off) =~= seq![
            EventView::RegionActive { region: range, energy: on + 1, threshold: on },
        ],
        hysteresis_step(true, (on + off) / 2, on, off) == true,
        region_edge_events(true, true, range, (on + off) / 2, on, off) =~= Seq::empty(),
        hysteresis_step(true, off - 1, on, off) == false,
        region_edge_events(true, false, range, off - 1, on, off) =~= seq![
            EventView::RegionQuiet { region: range, energy: off - 1, threshold: off },
        ],
        hysteresis_step(false, (on + off) / 2, on, off) == false,
        region_edge_events(false, false, range, (on + off) / 2, on, off) =~= Seq::empty(),
{
    assert((on + off) / 2 >= off);
    assert((on + off) / 2 < on);
}

proof fn lemma_edges_no_convergence(v: FieldView, n: int)
    requires
        0 <= n <= v.regions.len(),
    ensures
        forall|i: int|
            0 <= i < edge_events_prefix(v, n).len() ==> !(#[trigger] edge_events_prefix(v, n)[i]
                is Convergence),
    decreases n,
{
    if n > 0 {
        lemma_edges_no_convergence(v, n - 1);
    }
}

/// Convergence gating: an evaluation cycle emits a convergence event exactly
/// when at least `convergence_threshold` regions are active after their
/// transitions, and then exactly one, as the last event; with no regions
/// registered, no event of any kind is emitted.
pub proof fn lemma_convergence_gating(v: FieldView)
    requires
        v.wf(),
    ensures
        (exists|i: int|
            0 <= i < events_of(v).len() && (#[trigger] events_of(v)[i]) is Convergence) <==> (
        v.regions.len() > 0 && active_ranges_prefix(v, v.regions.len() as int).len()
            >= v.convergence_threshold),
        v.regions.len() == 0 ==> events_of(v) == Seq::<EventView>::empty(),
        forall|i: int|
            0 <= i < events_of(v).len() && (#[trigger] events_of(v)[i]) is Convergence ==> i
                == events_of(v).len() - 1,
{
    let n = v.regions.len() as int;
    if v.regions.len() > 0 {
        lemma_edges_no_convergence(v, n);
        let edges = edge_events_prefix(v, n);
        let actives = active_ranges_prefix(v, n);
        if actives.len() >= v.convergence_threshold {
            assert(events_of(v)[events_of(v).len() - 1] is Convergence);
        }
    }
}

/// The temporal field: a fixed ring of frames with decay, monitored regions
/// and synchronous pub/sub events.
///
/// Cloning a field copies the frames, the configuration and the region
/// states, but never the observers: a clone starts with zero subscribers.
pub struct TemporalField<O: FieldObserver> {
    frames: Vec<FieldVector>,
    config: FieldConfig,
    write_head: usize,
    tick_count: u64,
    observers: Vec<O>,
    triggers: TriggerConfig,
    was_active: Vec<bool>,
}

impl<O: FieldObserver> View for TemporalField<O> {
    type V = FieldView;

    closed spec fn view(&self) -> FieldView {
        FieldView {
            frames: self.frames@.map_values(|f: FieldVector| f@),
            config: self.config,
            write_head: self.write_head as int,
            tick_count: self.tick_count as int,
            regions: self.triggers.regions@,
            convergence_threshold: self.triggers.convergence_threshold as int,
            was_active: self.was_active@,
            observer_count: self.observers@.len() as int,
        }
    }
}

impl<O: FieldObserver> TemporalField<O> {
    /// The field's structural invariant, carried by every method.
    pub open spec fn wf(&self) -> bool {
        self@.wf()
    }

    /// Create a new temporal field from a validated configuration: the ring
    /// holds `frame_count` zero-filled frames, the write head and the tick
    /// counter start at zero, and no regions or observers are registered.
    #[verifier::loop_isolation(false)]
    pub fn new(config: FieldConfig) -> (field: Self)
        requires
            config.valid(),
        ensures
            field.wf(),
            field@.config == config,
            field@.write_head == 0,
            field@.tick_count == 0,
            field@.regions.len() == 0,
            field@.convergence_threshold == 2,
            field@.was_active.len() == 0,
            field@.observer_count == 0,
            field@.frames.len() == config.frame_count,
            forall|i: int|
                0 <= i < config.frame_count ==> #[trigger] field@.frames[i] == zero_frame(
                    config.dims as int,
                ),
    {
        let mut frames: Vec<FieldVector> = Vec::new();
        let mut i: usize = 0;
        while i < config.frame_count
            invariant
                i <= config.frame_count,
                frames@.len() == i,
                forall|j: int|
                    0 <= j < i ==> (#[trigger] frames@[j])@ == zero_frame(config.dims as int),
            decreases config.frame_count - i,
        {
            let frame = FieldVector::new(config.dims);
            proof {
                assert(frame@ =~= zero_frame(config.dims as int));
            }
            frames.push(frame);
            i = i + 1;
        }
        let field = TemporalField {
            frames,
            config,
            write_head: 0,
            tick_count: 0,
            observers: Vec::new(),
            triggers: TriggerConfig::default(),
            was_active: Vec::new(),
        };
        proof {
            assert(forall|j: int|
                0 <= j < config.frame_count ==> #[trigger] field@.frames[j] == zero_frame(
                    config.dims as int,
                ));
        }
        field
    }

    /// Register one more monitored region; its hysteresis state starts quiet.
    pub fn monitor_region(&mut self, region: MonitoredRegion)
        requires
            old(self).wf(),
        ensures
            final(self).wf(),
            final(self)@.regions == old(self)@.regions.push(region),
            final(self)@.was_active == old(self)@.was_active.push(false),
            final(self)@.frames == old(self)@.frames,
            final(self)@.config == old(self)@.config,
            final(self)@.write_head == old(self)@.write_head,
            final(self)@.tick_count == old(self)@.tick_count,
            final(self)@.convergence_threshold == old(self)@.convergence_threshold,
            final(self)@.observer_count == old(self)@.observer_count,
    {
        self.triggers.regions.push(region);
        self.was_active.push(false);
    }

    /// Set how many regions must be active at once for a convergence event.
    pub fn set_convergence_threshold(&mut self, threshold: usize)
        requires
            old(self).wf(),
        ensures
            final(self).wf(),
            final(self)@ == (FieldView { convergence_threshold: threshold as int, ..old(self)@ }),
    {
        self.triggers.convergence_threshold = threshold;
    }

    /// Subscribe an observer; it will receive every event from now on.
    pub fn subscribe(&mut self, observer: O)
        requires
            old(self).wf(),
        ensures
            final(self).wf(),
            final(self)@ == (FieldView {
                observer_count: old(self)@.observer_count + 1,
                ..old(self)@
            }),
    {
        self.observers.push(observer);
    }

    /// Remove all observers.
    pub fn clear_observers(&mut self)
        requires
            old(self).wf(),
        ensures
            final(self).wf(),
            final(self)@ == (FieldView { observer_count: 0, ..old(self)@ }),
    {
        self.observers.clear();
    }

    /// Advance the write head one slot, wrapping at the ring's end. The slot
    /// it lands on keeps its old contents; callers clear or overwrite it.
    pub fn advance_write_head(&mut self)
        requires
            old(self).wf(),
        ensures
            final(self).wf(),
            final(self)@ == advanced(old(self)@),
    {
        self.write_head = (self.write_head + 1) % self.config.frame_count;
    }

    /// The configuration.
    pub fn config(&self) -> (c: &FieldConfig)
        ensures
            *c == self@.config,
    {
        &self.config
    }

    /// The trigger configuration.
    pub fn triggers(&self) -> (t: &TriggerConfig)
        ensures
            t.regions@ == self@.regions,
            t.convergence_threshold as int == self@.convergence_threshold,
    {
        &self.triggers
    }

    /// The monitored regions.
    pub fn regions(&self) -> (r: &[MonitoredRegion])
        ensures
            r@ == self@.regions,
    {
        self.triggers.regions.as_slice()
    }

    /// Ticks elapsed since construction or the last clear.
    pub fn tick_count(&self) -> (t: u64)
        ensures
            t as int == self@.tick_count,
    {
        self.tick_count
    }

    /// The write head position.
    pub fn write_head(&self) -> (w: usize)
        ensures
            w as int == self@.write_head,
    {
        self.write_head
    }

    /// Dimensions per frame.
    pub fn dims(&self) -> (d: usize)
        ensures
            d == self@.config.dims,
    {
        self.config.dims
    }

    /// Number of frames in the ring.
    pub fn frame_count(&self) -> (n: usize)
        ensures
            n == self@.config.frame_count,
    {
        self.config.frame_count
    }

    /// Read the current frame.
    pub fn read_current(&self) -> (f: &FieldVector)
        requires
            self.wf(),
        ensures
            f@ == self@.current(),
    {
        &self.frames[self.write_head]
    }

    /// Read a region of the current frame, clamped to the frame bounds.
    pub fn read_region(&self, range: Range<usize>) -> (r: Vec<Signal>)
        requires
            self.wf(),
        ensures
            r@ == clamped_range(self@.current(), range.start as int, range.end as int),
    {
        self.frames[self.write_head].get_range(range)
    }

    /// Energy of a range of the current frame.
    pub fn region_energy(&self, range: Range<usize>) -> (e: u32)
        requires
            self.wf(),
        ensures
            e as int == range_energy_spec(self@.current(), range.start as int, range.end as int),
    {
        self.frames[self.write_head].range_energy(range)
    }

    /// Whether a range of the current frame has energy above the threshold.
    pub fn region_active(&self, range: Range<usize>, threshold: u32) -> (r: bool)
        requires
            self.wf(),
        ensures
            r == (range_energy_spec(self@.current(), range.start as int, range.end as int)
                > threshold as int),
    {
        let e = self.region_energy(range);
        e > threshold
    }

    /// Evaluate every monitored region against the current frame, move the
    /// hysteresis states, and collect the events this cycle emits.
    #[verifier::loop_isolation(false)]
    fn evaluate_regions(&mut self) -> (events: Vec<FieldEvent>)
        requires
            old(self).wf(),
        ensures
            final(self).wf(),
            final(self)@ == evaluated(old(self)@),
            views_of_events(events@) == events_of(old(self)@),
    {
        let ghost v0 = old(self)@;
        let n = self.triggers.regions.len();
        let mut events: Vec<FieldEvent> = Vec::new();
        if n == 0 {
            proof {
                assert(self@.was_active =~= Seq::new(
                    v0.regions.len(),
                    |i: int| v0.region_next_active(i),
                ));
                assert(self@ =~= evaluated(v0));
                assert(views_of_events(events@) =~= events_of(v0));
            }
            return events;
        }
        let mut active_ranges: Vec<Range<usize>> = Vec::new();
        let mut total: u64 = 0;
        let mut i: usize = 0;
        while i < n
            invariant
                i <= n,
                self@.frames == v0.frames,
                self@.config == v0.config,
                self@.write_head == v0.write_head,
                self@.tick_count == v0.tick_count,
                self@.regions == v0.regions,
                self@.convergence_threshold == v0.convergence_threshold,
                self@.observer_count == v0.observer_count,
                self@.was_active.len() == n,
                forall|j: int| 0 <= j < i ==> self@.was_active[j] == v0.region_next_active(j),
                forall|j: int| i <= j < n ==> self@.was_active[j] == v0.was_active[j],
                views_of_events(events@) == edge_events_prefix(v0, i as int),
                active_ranges@ == active_ranges_prefix(v0, i as int),
                total as int == weighted_total_prefix(v0, i as int),
            decreases n - i,
        {
            let rstart = self.triggers.regions[i].range.start;
            let rend = self.triggers.regions[i].range.end;
            let on = self.triggers.regions[i].on_threshold;
            let off = self.triggers.regions[i].off_threshold;
            let weight = self.triggers.regions[i].weight;
            let energy = self.frames[self.write_head].range_energy(rstart..rend);
            proof {
                assert(energy as int == v0.region_energy(i as int));
            }
            let was = self.was_active[i];
            let is_active = if was {
                energy >= off
            } else {
                energy > on
            };
            proof {
                assert(is_active == v0.region_next_active(i as int));
            }
            if is_active && !was {
                let ghost before = events@;
                events.push(
                    FieldEvent::RegionActive { region: rstart..rend, energy, threshold: on },
                );
                proof {
                    lemma_views_of_push(
                        before,
                        FieldEvent::RegionActive {
                            region: rstart..rend,
                            energy,
                            threshold: on,
                        },
                    );
                }
            }
            if !is_active && was {
                let ghost before = events@;
                events.push(
                    FieldEvent::RegionQuiet { region: rstart..rend, energy, threshold: off },
                );
                proof {
                    lemma_views_of_push(
                        before,
                        FieldEvent::RegionQuiet {
                            region: rstart..rend,
                            energy,
                            threshold: off,
                        },
                    );
                }
            }
            proof {
                assert(views_of_events(events@) == edge_events_prefix(v0, i + 1));
            }
            if is_active {
                active_ranges.push(rstart..rend);
                proof {
                    assert((energy as int) * (weight as int) <= u64::MAX) by (nonlinear_arith)
                        requires
                            0 <= energy as int <= u32::MAX,
                            0 <= weight as int <= 255,
                    ;
                }
                let term = (energy as u64) * (weight as u64) / 100;
                total = if total > u64::MAX - term {
                    u64::MAX
                } else {
                    total + term
                };
            }
            let ghost prev = self@.was_active;
            self.was_active[i] = is_active;
            proof {
                assert(self@.was_active =~= prev.update(i as int, is_active));
            }
            i = i + 1;
        }
        proof {
            assert(self@.was_active =~= Seq::new(
                v0.regions.len(),
                |j: int| v0.region_next_active(j),
            ));
            assert(self@ =~= evaluated(v0));
        }
        let count = active_ranges.len();
        if count >= self.triggers.convergence_threshold {
            let ghost before = events@;
            let conv = FieldEvent::Convergence { active_regions: active_ranges, total_energy: total };
            proof {
                assert(conv@ == (EventView::Convergence {
                    active_regions: active_ranges_prefix(v0, n as int),
                    total_energy: weighted_total_prefix(v0, n as int),
                }));
            }
            events.push(conv);
            proof {
                lemma_views_of_push(before, conv);
                assert(views_of_events(events@) == events_of(v0));
            }
        } else {
            proof {
                assert(views_of_events(events@) == events_of(v0));
            }
        }
        events
    }

    /// Deliver every event to every observer, in registration order, on the
    /// caller's stack.
    #[verifier::loop_isolation(false)]
    fn fire_all(&self, events: &Vec<FieldEvent>) {
        let mut i: usize = 0;
        while i < events.len()
            invariant
                i <= events@.len(),
            decreases events@.len() - i,
        {
            let mut j: usize = 0;
            while j < self.observers.len()
                invariant
                    j <= self.observers@.len(),
                decreases self.observers@.len() - j,
            {
                let event = events[i].clone();
                self.observers[j].on_event(event);
                j = j + 1;
            }
            i = i + 1;
        }
    }

    /// Re-evaluate all regions against the current frame and synchronously
    /// deliver the resulting events to every observer.
    fn check_and_fire(&mut self)
        requires
            old(self).wf(),
        ensures
            final(self).wf(),
            final(self)@ == evaluated(old(self)@),
    {
        let events = self.evaluate_regions();
        self.fire_all(&events);
    }

    /// Advance time by one tick: the tick counter increments, every frame in
    /// the ring decays, and the regions are re-evaluated against the current
    /// frame, firing events for any transition.
    #[verifier::loop_isolation(false)]
    pub fn tick(&mut self)
        requires
            old(self).wf(),
            old(self)@.tick_count < u64::MAX,
        ensures
            final(self).wf(),
            final(self)@ == evaluated(ticked(old(self)@)),
    {
        let ghost v0 = old(self)@;
        self.tick_count = self.tick_count + 1;
        let n = self.frames.len();
        let mut i: usize = 0;
        while i < n
            invariant
                i <= n,
                self@.frames.len() == n,
                self@.config == v0.config,
                self@.write_head == v0.write_head,
                self@.tick_count == v0.tick_count + 1,
                self@.regions == v0.regions,
                self@.convergence_threshold == v0.convergence_threshold,
                self@.was_active == v0.was_active,
                self@.observer_count == v0.observer_count,
                forall|j: int|
                    0 <= j < i ==> #[trigger] self@.frames[j] == decayed_frame(
                        v0.frames[j],
                        v0.config.retention,
                    ),
                forall|j: int| i <= j < n ==> #[trigger] self@.frames[j] == v0.frames[j],
            decreases n - i,
        {
            let ghost prev = self@.frames;
            self.frames[i].decay(self.config.retention);
            proof {
                assert(self@.frames[i as int] =~= decayed_frame(prev[i as int], v0.config.retention));
                assert(self@.frames =~= prev.update(
                    i as int,
                    decayed_frame(prev[i as int], v0.config.retention),
                ));
            }
            i = i + 1;
        }
        proof {
            assert(self@.frames =~= ticked(v0).frames);
            assert(self@ =~= ticked(v0));
        }
        self.check_and_fire();
    }

    /// Advance several ticks in sequence.
    #[verifier::loop_isolation(false)]
    pub fn tick_n(&mut self, n: usize)
        requires
            old(self).wf(),
            old(self)@.tick_count + n <= u64::MAX,
        ensures
            final(self).wf(),
            final(self)@ == ticked_n(old(self)@, n as int),
    {
        let mut i: usize = 0;
        while i < n
            invariant
                i <= n,
                self.wf(),
                self@ == ticked_n(old(self)@, i as int),
                self@.tick_count == old(self)@.tick_count + i,
            decreases n - i,
        {
            self.tick();
            i = i + 1;
        }
    }

    /// Add signals to a region of the current frame, saturating, then
    /// re-evaluate all regions and fire events for any transition.
    pub fn write_region(&mut self, signals: &[Signal], range: Range<usize>)
        requires
            old(self).wf(),
        ensures
            final(self).wf(),
            final(self)@ == evaluated(
                wrote_region(old(self)@, signals@, range.start as int, range.end as int),
            ),
    {
        let ghost v0 = old(self)@;
        let ghost start = range.start as int;
        let ghost end = range.end as int;
        self.frames[self.write_head].add_to_range(signals, range);
        proof {
            assert(self@.frames =~= wrote_region(v0, signals@, start, end).frames);
            assert(self@ =~= wrote_region(v0, signals@, start, end));
        }
        self.check_and_fire();
    }

    /// Replace signals in a region of the current frame, then re-evaluate
    /// all regions and fire events for any transition.
    pub fn set_region(&mut self, signals: &[Signal], range: Range<usize>)
        requires
            old(self).wf(),
        ensures
            final(self).wf(),
            final(self)@ == evaluated(
                set_region_spec(old(self)@, signals@, range.start as int, range.end as int),
            ),
    {
        let ghost v0 = old(self)@;
        let ghost start = range.start as int;
        let ghost end = range.end as int;
        self.frames[self.write_head].set_range(signals, range);
        proof {
            assert(self@.frames =~= set_region_spec(v0, signals@, start, end).frames);
            assert(self@ =~= set_region_spec(v0, signals@, start, end));
        }
        self.check_and_fire();
    }

    /// Add a full vector to the current frame, saturating elementwise, then
    /// re-evaluate all regions and fire events for any transition.
    pub fn write_full(&mut self, vector: &FieldVector)
        requires
            old(self).wf(),
            vector@.len() == old(self)@.config.dims,
        ensures
            final(self).wf(),
            final(self)@ == evaluated(wrote_full(old(self)@, vector@)),
    {
        let ghost v0 = old(self)@;
        proof {
            assert(v0.frames[v0.write_head].len() == v0.config.dims);
        }
        self.frames[self.write_head].add(vector);
        proof {
            assert(self@.frames[v0.write_head] =~= wrote_full(v0, vector@).current());
            assert(self@.frames =~= wrote_full(v0, vector@).frames);
            assert(self@ =~= wrote_full(v0, vector@));
        }
        self.check_and_fire();
    }

    /// Replace the current frame with zeros.
    pub fn clear_current(&mut self)
        requires
            old(self).wf(),
        ensures
            final(self).wf(),
            final(self)@ == (FieldView {
                frames: old(self)@.frames.update(
                    old(self)@.write_head,
                    zero_frame(old(self)@.config.dims as int),
                ),
                ..old(self)@
            }),
    {
        let frame = FieldVector::new(self.config.dims);
        proof {
            assert(frame@ =~= zero_frame(self@.config.dims as int));
        }
        self.frames[self.write_head] = frame;
        proof {
            assert(self@.frames =~= old(self)@.frames.update(
                old(self)@.write_head,
                zero_frame(old(self)@.config.dims as int),
            ));
            assert(self@ =~= (FieldView {
                frames: old(self)@.frames.update(
                    old(self)@.write_head,
                    zero_frame(old(self)@.config.dims as int),
                ),
                ..old(self)@
            }));
        }
    }

    /// Reset the whole field: every frame zeroed, the write head and the tick
    /// counter back to zero, every region back to quiet.
    #[verifier::loop_isolation(false)]
    pub fn clear(&mut self)
        requires
            old(self).wf(),
        ensures
            final(self).wf(),
            final(self)@ == (FieldView {
                frames: Seq::new(
                    old(self)@.frames.len(),
                    |i: int| zero_frame(old(self)@.config.dims as int),
                ),
                write_head: 0,
                tick_count: 0,
                was_active: Seq::new(old(self)@.was_active.len(), |i: int| false),
                ..old(self)@
            }),
    {
        let n = self.frames.len();
        let mut i: usize = 0;
        while i < n
            invariant
                i <= n,
                self@.frames.len() == n,
                self@.config == old(self)@.config,
                self@.write_head == old(self)@.write_head,
                self@.tick_count == old(self)@.tick_count,
                self@.regions == old(self)@.regions,
                self@.convergence_threshold == old(self)@.convergence_threshold,
                self@.was_active == old(self)@.was_active,
                self@.observer_count == old(self)@.observer_count,
                forall|j: int|
                    0 <= j < i ==> #[trigger] self@.frames[j] == zero_frame(
                        old(self)@.config.dims as int,
                    ),
                forall|j: int| i <= j < n ==> #[trigger] self@.frames[j] == old(self)@.frames[j],
            decreases n - i,
        {
            let frame = FieldVector::new(self.config.dims);
            proof {
                assert(frame@ =~= zero_frame(self@.config.dims as int));
            }
            let ghost prev = self@.frames;
            self.frames[i] = frame;
            proof {
                assert(self@.frames =~= prev.update(i as int, frame@));
            }
            i = i + 1;
        }
        self.write_head = 0;
        self.tick_count = 0;
        let m = self.was_active.len();
        let mut k: usize = 0;
        while k < m
            invariant
                k <= m,
                self@.was_active.len() == m,
                self@.frames.len() == n,
                self@.config == old(self)@.config,
                self@.write_head == 0,
                self@.tick_count == 0,
                self@.regions == old(self)@.regions,
                self@.convergence_threshold == old(self)@.convergence_threshold,
                self@.observer_count == old(self)@.observer_count,
                forall|j: int|
                    0 <= j < n ==> #[trigger] self@.frames[j] == zero_frame(
                        old(self)@.config.dims as int,
                    ),
                forall|j: int| 0 <= j < k ==> self@.was_active[j] == false,
                forall|j: int| k <= j < m ==> self@.was_active[j] == old(self)@.was_active[j],
            decreases m - k,
        {
            self.was_active[k] = false;
            k = k + 1;
        }
        proof {
            assert(self@.frames =~= Seq::new(
                old(self)@.frames.len(),
                |i: int| zero_frame(old(self)@.config.dims as int),
            ));
            assert(self@.was_active =~= Seq::new(old(self)@.was_active.len(), |i: int| false));
            assert(self@ =~= (FieldView {
                frames: Seq::new(
                    old(self)@.frames.len(),
                    |i: int| zero_frame(old(self)@.config.dims as int),
                ),
                write_head: 0,
                tick_count: 0,
                was_active: Seq::new(old(self)@.was_active.len(), |i: int| false),
                ..old(self)@
            }));
        }
    }

    /// Read the last `n` frames in chronological order, oldest first; at
    /// most the whole ring is returned.
    #[verifier::loop_isolation(false)]
    pub fn read_window(&self, n: usize) -> (r: Vec<&FieldVector>)
        requires
            self.wf(),
        ensures
            r@.len() == window_len(self@, n as int),
            forall|i: int|
                0 <= i < r@.len() ==> (#[trigger] r@[i])@ == window_spec(
                    self@,
                    window_len(self@, n as int),
                )[i],
    {
        let fc = self.config.frame_count;
        let w = if n < fc {
            n
        } else {
            fc
        };
        let wh = self.write_head;
        let s0 = if wh >= w {
            wh - w
        } else {
            (fc - w) + wh
        };
        let mut r: Vec<&FieldVector> = Vec::new();
        let mut i: usize = 0;
        while i < w
            invariant
                i <= w,
                r@.len() == i,
                forall|k: int|
                    0 <= k < i ==> (#[trigger] r@[k])@ == window_spec(self@, w as int)[k],
            decreases w - i,
        {
            let idx = if i < fc - s0 {
                s0 + i
            } else {
                i - (fc - s0)
            };
            proof {
                assert(idx as int == wrap_index(
                    self@.write_head - w + i,
                    self@.frames.len() as int,
                ));
            }
            r.push(&self.frames[idx]);
            i = i + 1;
        }
        r
    }

    /// The values of the window frame with the highest energy in the range;
    /// a zero-filled vector of the range's length when the window is empty.
    #[verifier::loop_isolation(false)]
    pub fn region_peak(&self, range: Range<usize>, window: usize) -> (r: Vec<Signal>)
        requires
            self.wf(),
        ensures
            window_len(self@, window as int) == 0 ==> r@.len() == range_len(range),
            window_len(self@, window as int) == 0 ==> forall|i: int|
                0 <= i < r@.len() ==> r@[i] == zero_signal(),
            window_len(self@, window as int) > 0 ==> r@ == clamped_range(
                window_spec(self@, window_len(self@, window as int))[peak_index(
                    window_spec(self@, window_len(self@, window as int)),
                    range.start as int,
                    range.end as int,
                    window_len(self@, window as int),
                )],
                range.start as int,
                range.end as int,
            ),
    {
        let frames = self.read_window(window);
        let w = frames.len();
        if w == 0 {
            let len = if range.end > range.start {
                range.end - range.start
            } else {
                0
            };
            let mut r: Vec<Signal> = Vec::new();
            let mut i: usize = 0;
            while i < len
                invariant
                    i <= len,
                    r@.len() == i,
                    forall|k: int| 0 <= k < i ==> r@[k] == zero_signal(),
                decreases len - i,
            {
                r.push(Signal::zero());
                i = i + 1;
            }
            return r;
        }
        let ghost win = window_spec(self@, w as int);
        let mut best_idx: usize = 0;
        let mut best_energy: u32 = 0;
        let mut i: usize = 0;
        while i < w
            invariant
                i <= w,
                best_idx < w,
                i == 0 ==> best_idx == 0 && best_energy == 0,
                i >= 1 ==> best_idx as int == peak_index(
                    win,
                    range.start as int,
                    range.end as int,
                    i as int,
                ),
                i >= 1 ==> best_energy as int == range_energy_spec(
                    win[best_idx as int],
                    range.start as int,
                    range.end as int,
                ),
            decreases w - i,
        {
            let e = frames[i].range_energy(range.start..range.end);
            if e > best_energy {
                best_energy = e;
                best_idx = i;
            }
            i = i + 1;
        }
        frames[best_idx].get_range(range)
    }

    /// The elementwise mean of the window frames over the range, clamped to
    /// the frame bounds, computed by widened integer sums with truncating
    /// division; a zero-filled vector of the range's length when the window
    /// is empty.
    #[verifier::loop_isolation(false)]
    pub fn region_mean(&self, range: Range<usize>, window: usize) -> (r: Vec<Signal>)
        requires
            self.wf(),
        ensures
            window_len(self@, window as int) == 0 ==> r@.len() == range_len(range),
            window_len(self@, window as int) == 0 ==> forall|i: int|
                0 <= i < r@.len() ==> r@[i] == zero_signal(),
            window_len(self@, window as int) > 0 ==> r@.len() == clamped_range(
                self@.current(),
                range.start as int,
                range.end as int,
            ).len(),
            window_len(self@, window as int) > 0 ==> forall|k: int|
                0 <= k < r@.len() ==> r@[k] == mean_signal(
                    window_spec(self@, window_len(self@, window as int)),
                    range.start + k,
                    window_len(self@, window as int),
                ),
    {
        let frames = self.read_window(window);
        let w = frames.len();
        if w == 0 {
            let len = if range.end > range.start {
                range.end - range.start
            } else {
                0
            };
            let mut r: Vec<Signal> = Vec::new();
            let mut i: usize = 0;
            while i < len
                invariant
                    i <= len,
                    r@.len() == i,
                    forall|k: int| 0 <= k < i ==> r@[k] == zero_signal(),
                decreases len - i,
            {
                r.push(Signal::zero());
                i = i + 1;
            }
            return r;
        }
        let ghost win = window_spec(self@, w as int);
        let dims = self.config.dims;
        let stop = if range.end < dims {
            range.end
        } else {
            dims
        };
        let mut r: Vec<Signal> = Vec::new();
        if range.start >= stop {
            return r;
        }
        let mut idx: usize = range.start;
        while idx < stop
            invariant
                range.start <= idx <= stop,
                r@.len() == idx - range.start,
                forall|k: int|
                    0 <= k < r@.len() ==> r@[k] == mean_signal(win, range.start + k, w as int),
            decreases stop - idx,
        {
            let mut sum: i64 = 0;
            let mut f: usize = 0;
            while f < w
                invariant
                    f <= w,
                    sum as int == window_sum_at(win, idx as int, f as int),
                decreases w - f,
            {
                proof {
                    assert(win[f as int].len() == self@.config.dims);
                }
                let val = frames[f].get_i16(idx);
                let v64 = val as i64;
                if v64 >= 0 {
                    sum = if sum > i64::MAX - v64 {
                        i64::MAX
                    } else {
                        sum + v64
                    };
                } else {
                    sum = if sum < i64::MIN - v64 {
                        i64::MIN
                    } else {
                        sum + v64
                    };
                }
                f = f + 1;
            }
            let abs: u64 = if sum >= 0 {
                sum as u64
            } else {
                ((-(sum + 1)) as u64) + 1
            };
            let q: u64 = abs / (w as u64);
            let mag: u64 = if q > 255 {
                255
            } else {
                q
            };
            let v32: i32 = if sum >= 0 {
                mag as i32
            } else {
                -(mag as i32)
            };
            proof {
                if sum >= 0 {
                    assert(tdiv(sum as int, w as int) == q as int);
                } else {
                    assert(abs as int == -(sum as int));
                    assert(tdiv(sum as int, w as int) == -(q as int));
                }
                assert(clamp_intensity(v32 as int) == clamp_intensity(
                    tdiv(window_sum_at(win, idx as int, w as int), w as int),
                ));
            }
            r.push(Signal::from_signed_i32(v32));
            idx = idx + 1;
        }
        r
    }

    /// Largest magnitude anywhere in the ring.
    #[verifier::loop_isolation(false)]
    pub fn max_magnitude(&self) -> (r: u8)
        requires
            self.wf(),
        ensures
            r as int == frames_max_mag(self@.frames),
    {
        let n = self.frames.len();
        let mut best: u8 = 0;
        let mut i: usize = 0;
        while i < n
            invariant
                i <= n,
                best as int == frames_max_mag(self@.frames.subrange(0, i as int)),
            decreases n - i,
        {
            proof {
                assert(self@.frames.subrange(0, i + 1).drop_last() =~= self@.frames.subrange(
                    0,
                    i as int,
                ));
            }
            let m = self.frames[i].max_magnitude();
            if m > best {
                best = m;
            }
            i = i + 1;
        }
        proof {
            assert(self@.frames.subrange(0, n as int) =~= self@.frames);
        }
        best
    }

    /// Number of nonzero signals across the whole ring, saturating at
    /// `usize::MAX`.
    #[verifier::loop_isolation(false)]
    pub fn total_activity(&self) -> (r: usize)
        requires
            self.wf(),
        ensures
            r as int == total_activity_spec(self@.frames),
    {
        let n = self.frames.len();
        let mut total: usize = 0;
        let mut i: usize = 0;
        while i < n
            invariant
                i <= n,
                total as int == total_activity_spec(self@.frames.subrange(0, i as int)),
            decreases n - i,
        {
            proof {
                assert(self@.frames.subrange(0, i + 1).drop_last() =~= self@.frames.subrange(
                    0,
                    i as int,
                ));
            }
            let c = self.frames[i].non_zero_count();
            total = if total > usize::MAX - c {
                usize::MAX
            } else {
                total + c
            };
            i = i + 1;
        }
        proof {
            assert(self@.frames.subrange(0, n as int) =~= self@.frames);
        }
        total
    }

    /// Convert a tick difference to milliseconds, truncating to 32 bits as
    /// the result type does.
    #[verifier::rlimit(50)]
    pub fn ticks_to_ms(&self, ticks: u64) -> (ms: u32)
        requires
            self@.config.tick_rate_hz > 0,
            ticks as int * 1000 <= u64::MAX,
        ensures
            ms == (ticks as int * 1000 / self@.config.tick_rate_hz as int) as u32,
            ticks as int * 1000 / self@.config.tick_rate_hz as int <= u32::MAX ==> ms as int
                == ticks as int * 1000 / self@.config.tick_rate_hz as int,
    {
        #[verifier::truncate]
        (((ticks * 1000) / (self.config.tick_rate_hz as u64)) as u32)
    }

    /// Convert milliseconds to ticks.
    pub fn ms_to_ticks(&self, ms: u32) -> (ticks: u64)
        ensures
            ticks as int == ms as int * self@.config.tick_rate_hz as int / 1000,
    {
        proof {
            assert(ms as int * self@.config.tick_rate_hz as int <= u64::MAX)
                by (nonlinear_arith)
                requires
                    0 <= ms as int <= u32::MAX,
                    0 <= self@.config.tick_rate_hz as int <= u32::MAX,
            ;
        }
        ((ms as u64) * (self.config.tick_rate_hz as u64)) / 1000
    }
}

impl<O: FieldObserver> Clone for TemporalField<O> {
    /// Clone isolation: the copy holds the same frames, configuration and
    /// region states, but no observers — a clone starts with zero
    /// subscribers, so later events on either field never reach the other's
    /// observer set.
    #[verifier::loop_isolation(false)]
    fn clone(&self) -> (r: Self)
        ensures
            r@ == (FieldView { observer_count: 0, ..self@ }),
    {
        let n = self.frames.len();
        let mut frames: Vec<FieldVector> = Vec::new();
        let mut i: usize = 0;
        while i < n
            invariant
                i <= n,
                frames@.len() == i,
                forall|k: int| 0 <= k < i ==> (#[trigger] frames@[k])@ == self@.frames[k],
            decreases n - i,
        {
            frames.push(self.frames[i].clone());
            i = i + 1;
        }
        let m = self.was_active.len();
        let mut was_active: Vec<bool> = Vec::new();
        let mut k: usize = 0;
        while k < m
            invariant
                k <= m,
                was_active@ =~= self.was_active@.subrange(0, k as int),
            decreases m - k,
        {
            was_active.push(self.was_active[k]);
            proof {
                assert(was_active@ =~= self.was_active@.subrange(0, k + 1));
            }
            k = k + 1;
        }
        let r = TemporalField {
            frames,
            config: self.config,
            write_head: self.write_head,
            tick_count: self.tick_count,
            observers: Vec::new(),
            triggers: self.triggers.clone(),
            was_active,
        };
        proof {
            assert(was_active@ =~= self.was_active@);
            assert(r@.frames =~= self@.frames);
            assert(r@ =~= (FieldView { observer_count: 0, ..self@ }));
        }
        r
    }
}

} // verus!
